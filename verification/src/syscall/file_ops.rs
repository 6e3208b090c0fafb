//! What `open`, `chdir`, `read` and `write` do with the file tree once their
//! arguments are copied in from user space.

use vstd::prelude::*;
use crate::fs::file_descriptor::{FileKind, OpenFile};
use crate::fs::ramfs_model::{with_data, written_at, NodeView};
use crate::fs::vfs::{ram_create, in_mount, Backend, Vfs, VfsNode, VfsView};
use crate::sys::errors::{Errno, FsError};
use crate::sys::syscall::FileKindTag;
use crate::sys::FileOpenFlags;
use crate::syscall::syscall_impl::open_kind;

verus! {

/// Making a file at `path` from `cwd`: the RAM file system after it and the
/// new node, or the error (nothing changes then).
pub open spec fn create_path_result(v: VfsView, cwd: VfsNode, path: Seq<u8>) -> (Seq<NodeView>, Result<VfsNode, FsError>) {
    match v.resolve_parent(cwd, path) {
        Err(e) => (v.fs, Err(e)),
        Ok((n, leaf)) => match v.backend_of(n.mount) {
            Backend::Procfs => (v.fs, Err(FsError::PermissionDenied)),
            Backend::Ramfs => {
                let (fs2, rr) = ram_create(v.fs, n.node as int, leaf);
                (fs2, in_mount(n.mount, rr))
            },
        },
    }
}

/// The node `open` ends on and the file system after it: the node `path`
/// names, else (with the create flag) a new file there.
pub open spec fn open_target(v: VfsView, cwd: VfsNode, path: Seq<u8>, flags: FileOpenFlags) -> (Seq<NodeView>, Result<VfsNode, FsError>) {
    match v.resolve(cwd, path) {
        Ok(n) => (v.fs, Ok(n)),
        Err(e) => if flags.spec_contains(FileOpenFlags::CREATE) {
            create_path_result(v, cwd, path)
        } else {
            (v.fs, Err(e))
        },
    }
}

/// What `open` makes of node `n`: a file or directory descriptor; a directory
/// cannot be opened for writing or executing, and a node whose kind cannot be
/// read is an I/O error.
pub open spec fn open_node_result(v: VfsView, n: VfsNode, flags: FileOpenFlags) -> Result<FileKind, Errno> {
    match v.b_node_type(n.mount, n.node) {
        Err(_) => Err(Errno::IoError),
        Ok(tag) => if tag == FileKindTag::File {
            Ok(FileKind::File { node: n })
        } else if flags.spec_contains(FileOpenFlags::WRITE) || flags.spec_contains(FileOpenFlags::EXECUTE) {
            Err(Errno::OperationNotPermitted)
        } else {
            Ok(FileKind::Dir { node: n })
        },
    }
}

/// What `read` does on an open descriptor.
#[derive(Debug)]
pub enum ReadStep {
    /// The descriptor is the terminal: its input queue is read.
    FromTty,
    /// These bytes were read (none at the end of the file).
    Bytes(Vec<u8>),
    Fail(Errno),
}

/// What `write` does on an open descriptor.
#[derive(Debug, Clone, Copy, PartialEq, Eq, Structural)]
pub enum WriteStep {
    /// The descriptor is the terminal: the bytes go to the console.
    ToTty,
    /// All the bytes were written.
    Wrote(usize),
    Fail(Errno),
}

/// Where `write` starts on a file: at 0 for a truncating descriptor, at the
/// end for an appending one (an error if the length cannot be read), else at
/// the descriptor's offset.
pub open spec fn write_start(v: VfsView, of_offset: usize, flags: FileOpenFlags, len: Result<usize, FsError>) -> Result<usize, Errno> {
    if flags.spec_contains(FileOpenFlags::TRUNCATE) {
        Ok(0)
    } else if flags.spec_contains(FileOpenFlags::APPEND) {
        match len {
            Ok(l) => Ok(l),
            Err(_) => Err(Errno::IoError),
        }
    } else {
        Ok(of_offset)
    }
}

/// A continuation byte of a UTF-8 sequence.
pub open spec fn utf8_cont(b: u8) -> bool {
    0x80 <= b <= 0xBF
}

/// The length of the well-formed UTF-8 sequence that starts at `b[i]` (the
/// Unicode standard's table of well-formed byte sequences), or 0 where none does.
pub open spec fn utf8_seq_len(b: Seq<u8>, i: int) -> int {
    let n = b.len();
    let b0 = b[i];
    if b0 <= 0x7F {
        1
    } else if 0xC2 <= b0 <= 0xDF {
        if i + 1 < n && utf8_cont(b[i + 1]) { 2 } else { 0 }
    } else if 0xE0 <= b0 <= 0xEF {
        let lo: u8 = if b0 == 0xE0 { 0xA0 } else { 0x80 };
        let hi: u8 = if b0 == 0xED { 0x9F } else { 0xBF };
        if n - i > 2 && lo <= b[i + 1] <= hi && utf8_cont(b[i + 2]) { 3 } else { 0 }
    } else if 0xF0 <= b0 <= 0xF4 {
        let lo: u8 = if b0 == 0xF0 { 0x90 } else { 0x80 };
        let hi: u8 = if b0 == 0xF4 { 0x8F } else { 0xBF };
        if n - i > 3 && lo <= b[i + 1] <= hi && utf8_cont(b[i + 2]) && utf8_cont(b[i + 3]) { 4 } else { 0 }
    } else {
        0
    }
}

/// `b[i..]` is a sequence of well-formed UTF-8 sequences.
pub open spec fn utf8_from(b: Seq<u8>, i: int) -> bool
    decreases b.len() - i,
{
    if i < 0 || i >= b.len() {
        true
    } else {
        let k = utf8_seq_len(b, i);
        k > 0 && utf8_from(b, i + k)
    }
}

/// `b` is UTF-8 text.
pub open spec fn utf8_valid(b: Seq<u8>) -> bool {
    utf8_from(b, 0)
}

/// The length of the well-formed UTF-8 sequence at `b[i]`, or 0.
fn utf8_seq_len_at(b: &[u8], i: usize) -> (k: usize)
    requires
        i < b@.len(),
    ensures
        k == utf8_seq_len(b@, i as int),
{
    let n = b.len();
    let b0 = b[i];
    if b0 <= 0x7F {
        1
    } else if 0xC2 <= b0 && b0 <= 0xDF {
        if n - i > 1 && 0x80 <= b[i + 1] && b[i + 1] <= 0xBF { 2 } else { 0 }
    } else if 0xE0 <= b0 && b0 <= 0xEF {
        let lo: u8 = if b0 == 0xE0 { 0xA0 } else { 0x80 };
        let hi: u8 = if b0 == 0xED { 0x9F } else { 0xBF };
        if n - i > 2 && lo <= b[i + 1] && b[i + 1] <= hi && 0x80 <= b[i + 2] && b[i + 2] <= 0xBF { 3 } else { 0 }
    } else if 0xF0 <= b0 && b0 <= 0xF4 {
        let lo: u8 = if b0 == 0xF0 { 0x90 } else { 0x80 };
        let hi: u8 = if b0 == 0xF4 { 0x8F } else { 0xBF };
        if n - i > 3 && lo <= b[i + 1] && b[i + 1] <= hi && 0x80 <= b[i + 2] && b[i + 2] <= 0xBF
            && 0x80 <= b[i + 3] && b[i + 3] <= 0xBF {
            4
        } else {
            0
        }
    } else {
        0
    }
}

/// Whether `b` is UTF-8 text, as `std::str::from_utf8` accepts it.
pub fn is_utf8(b: &[u8]) -> (r: bool)
    ensures
        r == utf8_valid(b@),
{
    let mut i: usize = 0;
    while i < b.len()
        invariant
            i <= b@.len(),
            utf8_valid(b@) == utf8_from(b@, i as int),
        decreases b@.len() - i,
    {
        let k = utf8_seq_len_at(b, i);
        if k == 0 {
            return false;
        }
        i = i + k;
    }
    true
}

/// Opens `path` from `cwd` with `flags`: the node it names, or a new file there
/// where the create flag is given; a missing node or a failed creation is an
/// I/O error; an empty path or one that is not UTF-8 text is refused. The
/// descriptor starts at offset 0 with nothing read.
pub fn open_path(vfs: &mut Vfs, cwd: VfsNode, path: &[u8], flags: FileOpenFlags) -> (r: Result<OpenFile, Errno>)
    requires
        old(vfs).wf(),
        old(vfs).view().valid(cwd),
        old(vfs).view().fs.len() + 1 < usize::MAX,
    ensures
        final(vfs).wf(),
        final(vfs).strace@ == old(vfs).strace@,
        final(vfs).sources == old(vfs).sources,
        final(vfs).procfs == old(vfs).procfs,
        path@.len() == 0 || !utf8_valid(path@) ==> r == Err::<OpenFile, Errno>(Errno::InvalidArgument)
            && final(vfs).view() == old(vfs).view(),
        path@.len() > 0 && utf8_valid(path@) ==> ({
            let v = old(vfs).view();
            let (fs2, target) = open_target(v, cwd, path@, flags);
            &&& final(vfs).view() == v.with_fs(fs2)
            &&& match target {
                Err(_) => r == Err::<OpenFile, Errno>(Errno::IoError),
                Ok(n) => match open_node_result(v.with_fs(fs2), n, flags) {
                    Err(e) => r == Err::<OpenFile, Errno>(e),
                    Ok(k) => r is Ok && r->Ok_0.kind == k && r->Ok_0.offset == 0 && r->Ok_0.flags == flags
                        && r->Ok_0.cache is None,
                },
            }
        }),
{
    if path.len() == 0 {
        return Err(Errno::InvalidArgument);
    }
    if !is_utf8(path) {
        return Err(Errno::InvalidArgument);
    }
    let ghost v = vfs.view();
    let node = match vfs.resolve(cwd, path) {
        Ok(n) => n,
        Err(_) => {
            if flags.contains(FileOpenFlags::CREATE) {
                match vfs.create_path(cwd, path) {
                    Ok(n) => n,
                    Err(_) => return Err(Errno::IoError),
                }
            } else {
                return Err(Errno::IoError);
            }
        },
    };
    assert(vfs.view() =~= v.with_fs(open_target(v, cwd, path@, flags).0));
    let tag = match vfs.node_type(node) {
        Ok(t) => t,
        Err(_) => return Err(Errno::IoError),
    };
    proof {
        lemma_node_type_file_or_dir(vfs.view(), node);
    }
    let kind = match open_kind(tag, node, flags) {
        Ok(k) => k,
        Err(e) => return Err(e),
    };
    Ok(OpenFile { kind, offset: 0, flags, cache: None })
}

/// A node a backend names is a file or a directory.
proof fn lemma_node_type_file_or_dir(v: VfsView, n: VfsNode)
    requires
        v.b_node_type(n.mount, n.node) is Ok,
    ensures
        v.b_node_type(n.mount, n.node)->Ok_0 == FileKindTag::File || v.b_node_type(n.mount, n.node)->Ok_0
            == FileKindTag::Dir,
{
    match v.backend_of(n.mount) {
        Backend::Ramfs => {
            let f = v.fs[(n.node as usize) as int];
            assert(f.tag() == FileKindTag::File || f.tag() == FileKindTag::Dir);
        },
        Backend::Procfs => {},
    }
}

/// Changes directory to `path` from `cwd`: the directory it names; an empty
/// path keeps `cwd`; a missing node, an unreadable kind or a file is refused.
pub fn chdir_target(vfs: &Vfs, cwd: VfsNode, path: &[u8]) -> (r: Result<VfsNode, Errno>)
    requires
        vfs.wf(),
        vfs.view().valid(cwd),
    ensures
        path@.len() == 0 ==> r == Ok::<VfsNode, Errno>(cwd),
        path@.len() > 0 ==> r == match vfs.view().resolve(cwd, path@) {
            Err(_) => Err(Errno::NotFound),
            Ok(n) => match vfs.view().b_node_type(n.mount, n.node) {
                Err(_) => Err(Errno::IoError),
                Ok(t) => if t == FileKindTag::Dir {
                    Ok(n)
                } else {
                    Err(Errno::NotADirectory)
                },
            },
        },
{
    if path.len() == 0 {
        return Ok(cwd);
    }
    let id = match vfs.resolve(cwd, path) {
        Ok(n) => n,
        Err(_) => return Err(Errno::NotFound),
    };
    let ty = match vfs.node_type(id) {
        Ok(t) => t,
        Err(_) => return Err(Errno::IoError),
    };
    if ty != FileKindTag::Dir {
        return Err(Errno::NotADirectory);
    }
    Ok(id)
}

/// The length `file_len` reports for `node`.
pub open spec fn vfs_file_len(vfs: &Vfs, node: VfsNode) -> Result<usize, FsError> {
    let v = vfs.view();
    if v.backend_of(node.mount) == Backend::Procfs {
        crate::fs::procfs::proc_len_spec(node.node, vfs.sources.free, vfs.sources.total, vfs.sources.ticks)
    } else if v.fs[node.node as int].is_dir() {
        Err(FsError::IsADirectory)
    } else {
        Ok::<usize, FsError>(v.fs[node.node as int].data().len() as usize)
    }
}

pub open spec fn write_step_ok(v0: Vfs, v1: Vfs, of0: OpenFile, of1: OpenFile, bytes: Seq<u8>, r: WriteStep) -> bool {
    &&& (of1.kind == of0.kind && of1.flags == of0.flags)
    &&& (of1.cache == of0.cache)
    &&& (!of0.flags.spec_contains(FileOpenFlags::WRITE) ==> r == WriteStep::Fail(Errno::OperationNotPermitted)
            && v1.view() == v0.view() && of1.offset == of0.offset)
    &&& (of0.flags.spec_contains(FileOpenFlags::WRITE) ==> match of0.kind {
            FileKind::Tty => r == WriteStep::ToTty && v1.view() == v0.view() && of1.offset
                == of0.offset,
            FileKind::Dir { .. } => r == WriteStep::Fail(Errno::IsADirectory) && v1.view() == v0.view()
                && of1.offset == of0.offset,
            FileKind::File { node } => {
                let v = v0.view();
                match write_start(v, of0.offset, of0.flags, vfs_file_len(&v0, node)) {
                    Err(e) => r == WriteStep::Fail(e) && v1.view() == v && of1.offset == of0.offset,
                    Ok(start) => if v.backend_of(node.mount) == Backend::Procfs || v.fs[node.node as int].is_dir() {
                        r == WriteStep::Fail(Errno::IoError) && v1.view() == v && of1.offset == of0.offset
                    } else {
                        let id = node.node as int;
                        &&& r == WriteStep::Wrote(bytes.len() as usize)
                        &&& v1.view() == v.with_fs(with_data(v.fs, id, written_at(v.fs[id].data(), start as int, bytes)))
                        &&& of1.offset == of0.offset + bytes.len()
                    },
                }
            },
        })
}

/// Writes `bytes` through an open descriptor: refused without the write flag;
/// the terminal takes them for the console; a directory is refused; a file is
/// written at `write_start` and the descriptor's offset moves on by what was
/// written (from where it was).
pub fn write_open_file(vfs: &mut Vfs, of: &mut OpenFile, bytes: &[u8]) -> (r: WriteStep)
    requires
        old(vfs).wf(),
        old(of).kind matches FileKind::File { node } ==> old(vfs).view().valid(node),
        old(of).offset + bytes@.len() <= usize::MAX,
        old(of).kind matches FileKind::File { node } ==> (vfs_file_len(old(vfs), node) matches Ok(l) ==> l + bytes@.len()
            <= usize::MAX),
    ensures
        final(vfs).wf(),
        final(vfs).sources == old(vfs).sources,
        final(vfs).procfs == old(vfs).procfs,
        write_step_ok(*old(vfs), *final(vfs), *old(of), *final(of), bytes@, r),
{
    if !of.flags.contains(FileOpenFlags::WRITE) {
        return WriteStep::Fail(Errno::OperationNotPermitted);
    }
    match of.kind {
        FileKind::Tty => WriteStep::ToTty,
        FileKind::Dir { .. } => WriteStep::Fail(Errno::IsADirectory),
        FileKind::File { node } => {
            let mut offset = of.offset;
            if of.flags.contains(FileOpenFlags::TRUNCATE) {
                offset = 0;
            } else if of.flags.contains(FileOpenFlags::APPEND) {
                offset = match vfs.file_len(node) {
                    Ok(v) => v,
                    Err(_) => return WriteStep::Fail(Errno::IoError),
                };
            }
            match vfs.write_at(node, offset, bytes) {
                Ok(v) => {
                    of.offset = of.offset + v;
                    WriteStep::Wrote(bytes.len())
                },
                Err(_) => WriteStep::Fail(Errno::IoError),
            }
        },
    }
}

/// The bytes a read of at most `len` bytes at `off` finds in `data`: none from
/// the end on.
pub open spec fn read_window(data: Seq<u8>, off: int, len: int) -> Seq<u8> {
    if off >= data.len() {
        Seq::empty()
    } else {
        data.subrange(off, off + (if len <= data.len() - off { len } else { data.len() - off }))
    }
}

pub open spec fn read_step_ok(v0: Vfs, v1: Vfs, of0: OpenFile, of1: OpenFile, len: usize, r: ReadStep) -> bool {
    &&& (v1.view() == v0.view())
    &&& (of1.kind == of0.kind && of1.flags == of0.flags)
    &&& (!of0.flags.spec_contains(FileOpenFlags::READ) ==> r is Fail && r->Fail_0 == Errno::OperationNotPermitted
            && of1.offset == of0.offset && of1.cache == of0.cache && v1.strace@ == v0.strace@)
    &&& (of0.flags.spec_contains(FileOpenFlags::READ) ==> match of0.kind {
            FileKind::Tty => r is FromTty && of1.offset == of0.offset && of1.cache == of0.cache
                && v1.strace@ == v0.strace@,
            FileKind::Dir { .. } => r is Fail && r->Fail_0 == Errno::IsADirectory && of1.offset == of0.offset
                && of1.cache == of0.cache && v1.strace@ == v0.strace@,
            FileKind::File { node } => {
                &&& r is Bytes ==> of1.cache is Some && r->Bytes_0@ == read_window(
                    of1.cache.unwrap()@,
                    of0.offset as int,
                    len as int,
                ) && of1.offset == of0.offset + r->Bytes_0@.len()
                &&& r is Fail ==> r->Fail_0 == Errno::IoError && of1.offset == of0.offset && of0.cache is None
                &&& !(r is FromTty)
                &&& of0.cache is Some ==> r is Bytes && of1.cache == of0.cache && v1.strace@ == v0.strace@
                &&& of0.cache is None ==> match v0.view().backend_of(node.mount) {
                    Backend::Ramfs => {
                        let f = v0.view().fs[node.node as int];
                        &&& v1.strace@ == v0.strace@
                        &&& f.is_dir() <==> r is Fail
                        &&& !f.is_dir() ==> of1.cache.unwrap()@ == f.data()
                    },
                    Backend::Procfs => {
                        &&& r is Bytes ==> crate::fs::procfs::proc_read_ok(
                            node.node,
                            v0.sources.free,
                            v0.sources.total,
                            v0.sources.ticks,
                            v0.strace@,
                            v1.strace@,
                            crate::fs::procfs::procs_view(v0.sources.procs@),
                            Ok::<Vec<u8>, FsError>(of1.cache.unwrap()),
                        )
                        &&& r is Fail ==> exists|e: FsError| crate::fs::procfs::proc_read_ok(
                            node.node,
                            v0.sources.free,
                            v0.sources.total,
                            v0.sources.ticks,
                            v0.strace@,
                            v1.strace@,
                            crate::fs::procfs::procs_view(v0.sources.procs@),
                            Err(e),
                        )
                    },
                }
            },
        })
}

/// Reads at most `len` bytes through an open descriptor: refused without the
/// read flag; the terminal is read elsewhere; a directory is refused; a file
/// is read at the descriptor's offset from its contents (taken once, when the
/// descriptor has none yet), and the offset moves on by what was read; a
/// failed read of the contents is an I/O error.
pub fn read_open_file(vfs: &mut Vfs, of: &mut OpenFile, len: usize) -> (r: ReadStep)
    requires
        old(vfs).wf(),
        old(of).kind matches FileKind::File { node } ==> old(vfs).view().valid(node),
    ensures
        final(vfs).wf(),
        final(vfs).sources == old(vfs).sources,
        final(vfs).procfs == old(vfs).procfs,
        read_step_ok(*old(vfs), *final(vfs), *old(of), *final(of), len, r),
{
    if !of.flags.contains(FileOpenFlags::READ) {
        return ReadStep::Fail(Errno::OperationNotPermitted);
    }
    match of.kind {
        FileKind::Tty => ReadStep::FromTty,
        FileKind::Dir { .. } => ReadStep::Fail(Errno::IsADirectory),
        FileKind::File { node } => {
            let offset = of.offset;
            let buf = match vfs.read_at(node, of, len) {
                Ok(b) => b,
                Err(e) => {
                    assert(old(vfs).view().backend_of(node.mount) == Backend::Procfs ==> crate::fs::procfs::proc_read_ok(
                        node.node,
                        old(vfs).sources.free,
                        old(vfs).sources.total,
                        old(vfs).sources.ticks,
                        old(vfs).strace@,
                        vfs.strace@,
                        crate::fs::procfs::procs_view(old(vfs).sources.procs@),
                        Err(e),
                    ));
                    return ReadStep::Fail(Errno::IoError);
                },
            };
            if buf.len() == 0 {
                return ReadStep::Bytes(buf);
            }
            let total = match &of.cache {
                Some(d) => d.len(),
                None => 0,
            };
            assert(offset + buf@.len() <= total);
            of.offset = offset + buf.len();
            ReadStep::Bytes(buf)
        },
    }
}

} // verus!
