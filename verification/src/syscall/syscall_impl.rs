use vstd::prelude::*;
use crate::proc::mmap_region::{MmapRegion, MAP_ANONYMOUS, MAP_FIXED, MAP_PRIVATE, PROT_EXEC, PROT_WRITE};
use crate::shared::{align_down, align_up, round_down, round_up, PAGE_SIZE, USER_SPACE_BOTTOM, USER_SPACE_TOP};
use crate::sys::errors::Errno;
use crate::fs::file_descriptor::FileKind;
use crate::fs::vfs::VfsNode;
use crate::sys::syscall::{dirent_written, le_byte, spec_tag_value, DirentHeader, FileKindTag, DIRENT_HEADER_SIZE};
use crate::fs::DirEntry;
use crate::sys::FileOpenFlags;
use crate::proc::sched::{enqueue_ready_locked, enqueue_spec, keys_in_order, task_ids, Tid};
use crate::proc::task_manager::{Task, TaskManager, TaskState, WaitReason};
use crate::syscall::{ARCH_GET_FS, ARCH_GET_GS, ARCH_SET_FS, ARCH_SET_GS};
use std::collections::VecDeque;

verus! {

pub const SIGKILL: usize = 9;
pub const SIGSTOP: usize = 19;
pub const SIG_BLOCK: i32 = 0;
pub const SIG_UNBLOCK: i32 = 1;
pub const SIG_SETMASK: i32 = 2;
pub const NSIG: usize = 64;

/// The signals that no mask can block: SIGKILL and SIGSTOP.
pub const UNBLOCKABLE: u64 = 0x40100;

/// `buf` with a directory entry laid at `off`: the inode's eight bytes, the
/// kind byte, the name length's two bytes and the name; the rest kept.
pub open spec fn put_dirent(buf: Seq<u8>, off: int, inode: u64, ftype: u8, name: Seq<u8>) -> Seq<u8> {
    let len16 = (name.len() % 0x10000) as u64;
    Seq::new(
        buf.len(),
        |k: int|
            if off <= k < off + 8 {
                le_byte(inode, k - off)
            } else if k == off + 8 {
                ftype
            } else if k == off + 10 {
                le_byte(len16, 0)
            } else if k == off + 11 {
                le_byte(len16, 1)
            } else if off + DIRENT_HEADER_SIZE <= k < off + DIRENT_HEADER_SIZE + name.len() {
                name[k - off - DIRENT_HEADER_SIZE]
            } else {
                buf[k]
            },
    )
}

/// The bytes one entry takes in a `getdents` buffer.
pub open spec fn dirent_size(e: DirEntry) -> int {
    DIRENT_HEADER_SIZE + e.name@.len()
}

/// Laying entries `i..` one after the other from offset `off`, stopping at the
/// first that does not fit below `cap`: the buffer, the end offset and how
/// many were laid.
pub open spec fn dirents_laid(buf: Seq<u8>, es: Seq<DirEntry>, i: int, off: int, cap: int) -> (Seq<u8>, int, int)
    decreases es.len() - i,
{
    if i < 0 || i >= es.len() || off + dirent_size(es[i]) > cap {
        (buf, off, 0)
    } else {
        let e = es[i];
        let (b, end, n) = dirents_laid(
            put_dirent(buf, off, e.id, spec_tag_value(e.ftype), e.name@),
            es,
            i + 1,
            off + dirent_size(e),
            cap,
        );
        (b, end, n + 1)
    }
}

proof fn lemma_dirent_written_put(before: Seq<u8>, after: Seq<u8>, off: int, inode: u64, ftype: u8, name: Seq<u8>)
    requires
        dirent_written(before, after, off, inode, ftype, name),
        0 <= off,
        off + DIRENT_HEADER_SIZE + name.len() <= before.len(),
    ensures
        after == put_dirent(before, off, inode, ftype, name),
{
    assert(after =~= put_dirent(before, off, inode, ftype, name));
}

/// Fills `out` with the directory entries from index `start` on, as
/// `getdents` lays them (see `dirents_laid`), and gives the bytes used and how
/// many entries were laid.
pub fn fill_dirents(out: &mut [u8], entries: &[DirEntry], start: usize) -> (r: (usize, usize))
    requires
        forall|i: int| 0 <= i < entries@.len() ==> old(out)@.len() + dirent_size(#[trigger] entries@[i]) <= usize::MAX,
    ensures
        ({
            let (b, end, n) = dirents_laid(old(out)@, entries@, start as int, 0, old(out)@.len() as int);
            &&& final(out)@ == b
            &&& r.0 == end
            &&& r.1 == n
        }),
{
    let cap = out.len();
    let ghost full = dirents_laid(out@, entries@, start as int, 0, cap as int);
    let mut off: usize = 0;
    let mut count: usize = 0;
    let mut i: usize = start;
    while i < entries.len()
        invariant_except_break
            dirents_laid(out@, entries@, i as int, off as int, cap as int) == (full.0, full.1, full.2 - count),
        invariant
            cap == out@.len(),
            start <= i,
            off <= cap,
            count <= i - start,
            forall|k: int| 0 <= k < entries@.len() ==> cap + dirent_size(#[trigger] entries@[k]) <= usize::MAX,
        ensures
            out@ == full.0 && off == full.1 && count == full.2,
        decreases entries@.len() - i,
    {
        let e = &entries[i];
        assert(cap + dirent_size(entries@[i as int]) <= usize::MAX);
        let ghost buf0 = out@;
        match DirentHeader::write_dirent(off, out, e.id, e.ftype.as_u8(), e.name.as_slice(), cap) {
            Some(sz) => {
                proof {
                    lemma_dirent_written_put(buf0, out@, off as int, e.id, spec_tag_value(e.ftype), e.name@);
                }
                off = off + sz;
                count = count + 1;
            },
            None => {
                break;
            },
        }
        i = i + 1;
    }
    (off, count)
}

/// What a `brk` request does to the program break.
#[derive(Debug, Clone, Copy, PartialEq, Eq, Structural)]
pub enum BrkPlan {
    /// The break stays where it is and is returned.
    Keep,
    /// The pages from `map_from` up to `map_to` are mapped, then the break moves
    /// to `new`.
    Grow { map_from: u64, map_to: u64, new: u64 },
    /// The pages from `unmap_to` up to `unmap_from` are unmapped, highest first,
    /// then the break moves to `new`.
    Shrink { unmap_from: u64, unmap_to: u64, new: u64 },
}

/// `brk(addr)` on a process whose heap starts at `brk_start`, may grow to
/// `brk_max` and now ends at `brk`: 0 only asks, a break outside the heap's range
/// or equal to the current one changes nothing, otherwise the pages between the
/// page-rounded old and new breaks are mapped or unmapped.
pub open spec fn brk_plan_spec(addr: u64, brk_start: u64, brk: u64, brk_max: u64) -> BrkPlan {
    if addr == 0 || addr < brk_start || addr > brk_max || addr == brk {
        BrkPlan::Keep
    } else if addr > brk {
        BrkPlan::Grow {
            map_from: round_up(brk as int, PAGE_SIZE as int) as u64,
            map_to: round_up(addr as int, PAGE_SIZE as int) as u64,
            new: addr,
        }
    } else {
        BrkPlan::Shrink {
            unmap_from: round_up(brk as int, PAGE_SIZE as int) as u64,
            unmap_to: round_up(addr as int, PAGE_SIZE as int) as u64,
            new: addr,
        }
    }
}

/// `brk(addr)` asks to move the break: a non-zero address inside the heap's
/// bounds other than the current break.
pub open spec fn brk_moves(addr: u64, brk_start: u64, brk: u64, brk_max: u64) -> bool {
    addr != 0 && brk_start <= addr <= brk_max && addr != brk
}

pub fn brk_plan(addr: u64, brk_start: u64, brk: u64, brk_max: u64) -> (r: BrkPlan)
    requires
        brk_moves(addr, brk_start, brk, brk_max) ==> brk + (PAGE_SIZE - 1) <= u64::MAX && addr + (
            PAGE_SIZE - 1) <= u64::MAX,
    ensures
        r == brk_plan_spec(addr, brk_start, brk, brk_max),
{
    if addr == 0 {
        return BrkPlan::Keep;
    }
    let new = addr;
    if new < brk_start || new > brk_max {
        return BrkPlan::Keep;
    }
    if new == brk {
        return BrkPlan::Keep;
    }
    if new > brk {
        BrkPlan::Grow { map_from: align_up(brk), map_to: align_up(new), new }
    } else {
        BrkPlan::Shrink { unmap_from: align_up(brk), unmap_to: align_up(new), new }
    }
}

/// The break that `brk` leaves and returns: the old one unless the plan moves it
/// and its page work succeeded.
pub fn brk_result(plan: BrkPlan, old: u64, pages_ok: bool) -> (r: u64)
    ensures
        r == match plan {
            BrkPlan::Keep => old,
            BrkPlan::Grow { new, .. } => if pages_ok { new } else { old },
            BrkPlan::Shrink { new, .. } => if pages_ok { new } else { old },
        },
{
    match plan {
        BrkPlan::Keep => old,
        BrkPlan::Grow { new, .. } => if pages_ok { new } else { old },
        BrkPlan::Shrink { new, .. } => if pages_ok { new } else { old },
    }
}

/// The checks of an `mmap` request: only a private anonymous mapping of a
/// non-empty length, without file, offset or fixed address, is served. Returns
/// the length rounded up to whole pages.
pub fn mmap_validate(len: u64, flags: i32, fd: i32, offset: u64) -> (r: Result<u64, Errno>)
    requires
        len + PAGE_SIZE - 1 <= u64::MAX,
    ensures
        r == (if len == 0 || flags & MAP_ANONYMOUS == 0 || flags & MAP_PRIVATE == 0 || fd != -1 || offset != 0
            || flags & MAP_FIXED != 0 {
            Err(Errno::InvalidArgument)
        } else {
            Ok::<u64, Errno>(round_up(len as int, PAGE_SIZE as int) as u64)
        }),
{
    if len == 0 {
        return Err(Errno::InvalidArgument);
    }
    let want_anon = (flags & MAP_ANONYMOUS) != 0;
    let want_priv = (flags & MAP_PRIVATE) != 0;
    if !want_anon || !want_priv {
        return Err(Errno::InvalidArgument);
    }
    if fd != -1 || offset != 0 {
        return Err(Errno::InvalidArgument);
    }
    if (flags & MAP_FIXED) != 0 {
        return Err(Errno::InvalidArgument);
    }
    let s = len + (PAGE_SIZE - 1);
    let r = s & !(PAGE_SIZE - 1);
    assert(s & !0xfffu64 == (s / 0x1000) * 0x1000) by (bit_vector);
    Ok(r)
}

/// Where an anonymous mapping of `len_rounded` bytes goes: just below the
/// page-aligned mapping top, refused if that would reach below the page-rounded
/// break or leave user space. Returns the start and end.
pub open spec fn mmap_place_spec(len_rounded: u64, mmap_top: u64, brk: u64) -> Result<(u64, u64), Errno> {
    let end = round_down(mmap_top as int, PAGE_SIZE as int);
    let base = end - len_rounded;
    if base < 0 {
        Err(Errno::OutOfMemory)
    } else if base < round_up(brk as int, PAGE_SIZE as int) {
        Err(Errno::OutOfMemory)
    } else if base < USER_SPACE_BOTTOM || end > USER_SPACE_TOP {
        Err(Errno::OutOfMemory)
    } else {
        Ok((base as u64, end as u64))
    }
}

pub fn mmap_place(len_rounded: u64, mmap_top: u64, brk: u64) -> (r: Result<(u64, u64), Errno>)
    requires
        brk + PAGE_SIZE <= u64::MAX,
    ensures
        r == mmap_place_spec(len_rounded, mmap_top, brk),
{
    let end = align_down(mmap_top);
    let base = match end.checked_sub(len_rounded) {
        Some(v) => v,
        None => return Err(Errno::OutOfMemory),
    };
    let brk_top = align_up(brk);
    if base < brk_top {
        return Err(Errno::OutOfMemory);
    }
    if base < USER_SPACE_BOTTOM || end > USER_SPACE_TOP {
        return Err(Errno::OutOfMemory);
    }
    Ok((base, end))
}

/// Whether an mmapped page is writable and whether it may run code.
pub fn mmap_page_access(prot: i32) -> (r: (bool, bool))
    ensures
        r == (prot & PROT_WRITE != 0, prot & PROT_EXEC != 0),
{
    ((prot & PROT_WRITE) != 0, (prot & PROT_EXEC) != 0)
}

/// The record of a served mapping.
pub fn mmap_region(base: u64, len_rounded: u64, prot: i32, flags: i32) -> (r: MmapRegion)
    ensures
        r.start == base && r.len == len_rounded && r.prot == prot && r.flags == flags,
{
    MmapRegion { start: base, len: len_rounded, prot, flags }
}

/// A signal mask after `rt_sigprocmask(how, set)`: blocked, unblocked or
/// replaced, and never blocking SIGKILL or SIGSTOP.
pub open spec fn sigmask_after(how: i32, old: u64, set: u64) -> Result<u64, Errno> {
    if how == SIG_BLOCK {
        Ok((old | set) & !UNBLOCKABLE)
    } else if how == SIG_UNBLOCK {
        Ok((old & !set) & !UNBLOCKABLE)
    } else if how == SIG_SETMASK {
        Ok(set & !UNBLOCKABLE)
    } else {
        Err(Errno::InvalidArgument)
    }
}

pub fn sigprocmask_apply(how: i32, old: u64, set: u64) -> (r: Result<u64, Errno>)
    ensures
        r == sigmask_after(how, old, set),
{
    let mut newmask = old;
    if how == SIG_BLOCK {
        newmask = newmask | set;
    } else if how == SIG_UNBLOCK {
        newmask = newmask & !set;
    } else if how == SIG_SETMASK {
        newmask = set;
    } else {
        return Err(Errno::InvalidArgument);
    }
    let kill = crate::syscall::helpers::sig_bit(SIGKILL);
    let stop = crate::syscall::helpers::sig_bit(SIGSTOP);
    assert((1u64 << 8u64) | (1u64 << 18u64) == 0x40100u64) by (bit_vector);
    newmask = newmask & !(kill | stop);
    Ok(newmask)
}

/// The signal that `rt_sigaction` acts on, or why it refuses: the set must be 8
/// bytes, the signal in range, and SIGKILL and SIGSTOP get no new action.
pub open spec fn sigaction_check_spec(signum: i32, has_act: bool, sigsetsize: u64) -> Result<usize, Errno> {
    if sigsetsize != 8 || signum <= 0 || signum >= NSIG {
        Err(Errno::InvalidArgument)
    } else if (signum == SIGKILL || signum == SIGSTOP) && has_act {
        Err(Errno::InvalidArgument)
    } else {
        Ok::<usize, Errno>(signum as usize)
    }
}

/// The checks of `rt_sigaction`: an 8-byte signal set, a signal number in range,
/// and no new action for SIGKILL or SIGSTOP. Returns the signal.
pub fn sigaction_check(signum: i32, act_ptr: u64, sigsetsize: u64) -> (r: Result<usize, Errno>)
    ensures
        r == sigaction_check_spec(signum, act_ptr != 0, sigsetsize),
{
    if sigsetsize != 8 {
        return Err(Errno::InvalidArgument);
    }
    if signum <= 0 || signum as usize >= NSIG {
        return Err(Errno::InvalidArgument);
    }
    let sig = signum as usize;
    if sig == SIGKILL || sig == SIGSTOP {
        if act_ptr != 0 {
            return Err(Errno::InvalidArgument);
        }
    }
    Ok(sig)
}

/// The file-creation mask that `umask(mask)` sets: the permission bits only.
pub fn umask_value(mask: u16) -> (r: u16)
    ensures
        r == mask & 0o777,
{
    mask & 0o777
}

/// `close(fd)` on a descriptor table: 0 and 1 cannot be closed, a descriptor past
/// the table overflows, a free slot is a bad descriptor; otherwise the slot is
/// freed and 0 returned.
pub fn close_fd<T>(fds: &mut Vec<Option<T>>, fd: u64) -> (r: i64)
    ensures
        fd == 0 || fd == 1 ==> r == -22 && final(fds)@ == old(fds)@,
        fd > 1 && fd >= old(fds)@.len() ==> r == -75 && final(fds)@ == old(fds)@,
        fd > 1 && fd < old(fds)@.len() && old(fds)@[fd as int] is None ==> r == -9 && final(fds)@ == old(fds)@,
        fd > 1 && fd < old(fds)@.len() && old(fds)@[fd as int] is Some ==> r == 0 && final(fds)@ == old(
            fds,
        )@.update(fd as int, None),
{
    if fd == 0 || fd == 1 {
        return Errno::InvalidArgument.as_i64();
    }
    if fd >= fds.len() as u64 {
        return Errno::ValueOverflow.as_i64();
    }
    let i = fd as usize;
    if fds[i].is_none() {
        return Errno::BadFileDescriptor.as_i64();
    }
    fds.set(i, None);
    0
}

/// Where a write to an open file starts: at 0 for a truncating open, at the end
/// for an appending one, else at the file's offset.
pub fn write_offset(flags: FileOpenFlags, offset: usize, file_len: usize) -> (r: usize)
    ensures
        r == (if flags.spec_contains(FileOpenFlags::TRUNCATE) {
            0
        } else if flags.spec_contains(FileOpenFlags::APPEND) {
            file_len
        } else {
            offset
        }),
{
    if flags.contains(FileOpenFlags::TRUNCATE) {
        0
    } else if flags.contains(FileOpenFlags::APPEND) {
        file_len
    } else {
        offset
    }
}

/// The kind of descriptor `open` makes for a node of kind `tag`; a directory
/// cannot be opened for writing or executing.
pub fn open_kind(tag: FileKindTag, node: VfsNode, flags: FileOpenFlags) -> (r: Result<FileKind, Errno>)
    requires
        tag == FileKindTag::File || tag == FileKindTag::Dir,
    ensures
        tag == FileKindTag::File ==> r == Ok::<FileKind, Errno>(FileKind::File { node }),
        tag == FileKindTag::Dir ==> r == (if flags.spec_contains(FileOpenFlags::WRITE) || flags.spec_contains(
            FileOpenFlags::EXECUTE,
        ) {
            Err(Errno::OperationNotPermitted)
        } else {
            Ok::<FileKind, Errno>(FileKind::Dir { node })
        }),
{
    match tag {
        FileKindTag::File => Ok(FileKind::File { node }),
        _ => {
            if flags.contains(FileOpenFlags::WRITE) || flags.contains(FileOpenFlags::EXECUTE) {
                Err(Errno::OperationNotPermitted)
            } else {
                Ok(FileKind::Dir { node })
            }
        },
    }
}

/// After one element of a gather write: go on with a new total, or stop with
/// what `writev` returns.
#[derive(Debug, Clone, Copy, PartialEq, Eq, Structural)]
pub enum WritevStep {
    Continue(i64),
    Done(i64),
}

/// One element of a gather write that wrote `n` of `iov_len` bytes (or failed
/// with `n` < 0): an error or nothing written ends the call with the bytes so far
/// if any, else the error (or an I/O error); a short write ends it with the new
/// total.
pub open spec fn writev_step_spec(total: i64, n: i64, iov_len: u64) -> WritevStep {
    if n < 0 {
        WritevStep::Done(if total > 0 { total } else { n })
    } else if n == 0 {
        WritevStep::Done(if total > 0 { total } else { -5i64 })
    } else if (n as u64) < iov_len {
        WritevStep::Done((total + n) as i64)
    } else {
        WritevStep::Continue((total + n) as i64)
    }
}

pub fn writev_step(total: i64, n: i64, iov_len: u64) -> (r: WritevStep)
    requires
        iov_len > 0,
        0 <= total,
        total + n <= i64::MAX,
    ensures
        r == writev_step_spec(total, n, iov_len),
{
    if n < 0 {
        return WritevStep::Done(if total > 0 { total } else { n });
    }
    if n == 0 {
        return WritevStep::Done(if total > 0 { total } else { Errno::IoError.as_i64() });
    }
    let t = total + n;
    if (n as u64) < iov_len {
        WritevStep::Done(t)
    } else {
        WritevStep::Continue(t)
    }
}

/// The checks of a gather write's arguments: nothing to do for no elements, a
/// null vector is a bad address, more than `IOV_MAX` elements are refused.
pub fn writev_check(iovec_addr: u64, iovcnt: u64) -> (r: Result<usize, i64>)
    ensures
        r == (if iovcnt == 0 {
            Err::<usize, i64>(0i64)
        } else if iovec_addr == 0 {
            Err(-14i64)
        } else if iovcnt > crate::syscall::IOV_MAX {
            Err(-22i64)
        } else {
            Ok(iovcnt as usize)
        }),
{
    if iovcnt == 0 {
        return Err(0);
    }
    if iovec_addr == 0 {
        return Err(Errno::BadAdress.as_i64());
    }
    if iovcnt > crate::syscall::IOV_MAX as u64 {
        return Err(Errno::InvalidArgument.as_i64());
    }
    Ok(iovcnt as usize)
}

/// The working directory as `getcwd` copies it out: the path and a NUL, or a bad
/// address if it does not fit in `len` bytes.
pub fn getcwd_bytes(path: &[u8], len: usize) -> (r: Result<Vec<u8>, Errno>)
    ensures
        path@.len() + 1 > len ==> r == Err::<Vec<u8>, Errno>(Errno::BadAdress),
        path@.len() + 1 <= len ==> r is Ok && r->Ok_0@ == path@.push(0u8),
{
    if path.len() >= len {
        return Err(Errno::BadAdress);
    }
    let mut out = crate::fs::copy_bytes(path);
    out.push(0u8);
    Ok(out)
}

/// `t` set waiting for `why`, off the run queue's books.
pub open spec fn waiting_for(t: Task, why: WaitReason) -> Task {
    Task { state: TaskState::Waiting, wait: Some(why), queued: false, ..t }
}

/// Puts task `tid` to sleep until tick `now + ms`.
pub fn block_on_sleep(tm: &mut TaskManager, tid: Tid, now: u64, ms: u64)
    requires
        old(tm).tasks@.contains_key(tid),
        now + ms <= u64::MAX,
    ensures
        final(tm).tasks@ == old(tm).tasks@.insert(
            tid,
            Task { wake_tick: (now + ms) as u64, ..waiting_for(old(tm).tasks@[tid], WaitReason::SleepUntil((now + ms) as u64)) },
        ),
        final(tm).current == old(tm).current && final(tm).next_tid == old(tm).next_tid,
{
    let wake = now + ms;
    let mut t = tm.tasks.remove(&tid).unwrap();
    t.state = TaskState::Waiting;
    t.wait = Some(WaitReason::SleepUntil(wake));
    t.wake_tick = wake;
    t.queued = false;
    tm.tasks.insert(tid, t);
}

/// Puts task `tid`, if it exists, to wait for terminal input.
pub fn block_on_io(tm: &mut TaskManager, tid: Tid)
    ensures
        final(tm).tasks@ == (if old(tm).tasks@.contains_key(tid) {
            old(tm).tasks@.insert(tid, waiting_for(old(tm).tasks@[tid], WaitReason::IO))
        } else {
            old(tm).tasks@
        }),
        final(tm).current == old(tm).current && final(tm).next_tid == old(tm).next_tid,
{
    if let Some(t) = tm.tasks.remove(&tid) {
        let mut t = t;
        t.state = TaskState::Waiting;
        t.wait = Some(WaitReason::IO);
        t.queued = false;
        tm.tasks.insert(tid, t);
    } else {
        assert(tm.tasks@ =~= old(tm).tasks@);
    }
}

/// Puts task `tid` to wait for any child (`pid` 0) or for child `pid`.
pub fn block_on_child(tm: &mut TaskManager, tid: Tid, pid: u64)
    requires
        old(tm).tasks@.contains_key(tid),
    ensures
        final(tm).tasks@ == old(tm).tasks@.insert(
            tid,
            waiting_for(old(tm).tasks@[tid], if pid == 0 { WaitReason::AnyChild } else { WaitReason::ChildPid(pid) }),
        ),
        final(tm).current == old(tm).current && final(tm).next_tid == old(tm).next_tid,
{
    let mut t = tm.tasks.remove(&tid).unwrap();
    t.state = TaskState::Waiting;
    t.wait = Some(if pid == 0 { WaitReason::AnyChild } else { WaitReason::ChildPid(pid) });
    t.queued = false;
    tm.tasks.insert(tid, t);
}

/// Marks task `tid` exited with `code`; returns the address to clear for it (0
/// for none).
pub fn mark_exited(tm: &mut TaskManager, tid: Tid, code: i64) -> (r: u64)
    requires
        old(tm).tasks@.contains_key(tid),
    ensures
        r == old(tm).tasks@[tid].clear_child_tid,
        final(tm).tasks@ == old(tm).tasks@.insert(
            tid,
            Task { state: TaskState::Exited(code), queued: false, ..old(tm).tasks@[tid] },
        ),
        final(tm).current == old(tm).current && final(tm).next_tid == old(tm).next_tid,
{
    let mut t = tm.tasks.remove(&tid).unwrap();
    t.state = TaskState::Exited(code);
    t.queued = false;
    let r = t.clear_child_tid;
    tm.tasks.insert(tid, t);
    r
}

/// A parent's task waits for the exit of process `pid`.
pub open spec fn waits_for_exit_of(t: Task, pid: u64) -> bool {
    t.state == TaskState::Waiting && match t.wait {
        Some(WaitReason::AnyChild) => true,
        Some(WaitReason::ChildPid(wanted)) => wanted == pid,
        _ => false,
    }
}

/// The first of the parent's tasks `ptids` that waits for the exit of `pid`.
pub open spec fn first_waiter(tasks: Map<u64, Task>, ptids: Seq<u64>, pid: u64) -> Option<u64>
    decreases ptids.len(),
{
    if ptids.len() == 0 {
        None
    } else if tasks.contains_key(ptids[0]) && waits_for_exit_of(tasks[ptids[0]], pid) {
        Some(ptids[0])
    } else {
        first_waiter(tasks, ptids.drop_first(), pid)
    }
}

/// On the exit of process `pid`, wakes the first of its parent's tasks that waits
/// for it: the task becomes ready and is queued. Returns the task woken.
pub fn wake_waiting_parent(tm: &mut TaskManager, rq: &mut VecDeque<Tid>, ptids: &[u64], pid: u64) -> (r: Option<u64>)
    ensures
        r == first_waiter(old(tm).tasks@, ptids@, pid),
        match r {
            None => final(tm).tasks@ == old(tm).tasks@ && final(rq)@ == old(rq)@,
            Some(p) => (final(tm).tasks@, final(rq)@) == enqueue_spec(
                old(tm).tasks@.insert(p, Task { wait: None, state: TaskState::Ready, ..old(tm).tasks@[p] }),
                old(rq)@,
                p,
            ),
        },
        final(tm).current == old(tm).current && final(tm).next_tid == old(tm).next_tid,
{
    let ghost ps = ptids@;
    let mut i: usize = 0;
    assert(ps.skip(0) =~= ps);
    while i < ptids.len()
        invariant
            i <= ps.len(),
            ps == ptids@,
            tm.tasks@ == old(tm).tasks@,
            rq@ == old(rq)@,
            tm.current == old(tm).current && tm.next_tid == old(tm).next_tid,
            first_waiter(old(tm).tasks@, ps, pid) == first_waiter(old(tm).tasks@, ps.skip(i as int), pid),
        decreases ps.len() - i,
    {
        let ptid = ptids[i];
        assert(ps.skip(i as int)[0] == ptid);
        assert(ps.skip(i as int).drop_first() =~= ps.skip(i + 1));
        if let Some(t) = tm.tasks.remove(&ptid) {
            let wake = t.state == TaskState::Waiting && match t.wait {
                Some(WaitReason::AnyChild) => true,
                Some(WaitReason::ChildPid(wanted)) => wanted == pid,
                _ => false,
            };
            if wake {
                let mut t = t;
                t.wait = None;
                t.state = TaskState::Ready;
                tm.tasks.insert(ptid, t);
                enqueue_ready_locked(tm, rq, ptid);
                return Some(ptid);
            }
            tm.tasks.insert(ptid, t);
            assert(tm.tasks@ =~= old(tm).tasks@);
        }
        i = i + 1;
    }
    assert(ps.skip(i as int) =~= Seq::<u64>::empty());
    None
}

/// What `arch_prctl` asks of the CPU once the task's records are updated.
#[derive(Debug, Clone, Copy, PartialEq, Eq, Structural)]
pub enum ArchAction {
    /// Load the GS base register.
    WriteGsBase(u64),
    /// Load the FS base register.
    WriteFsBase(u64),
    /// Store the value at the user address.
    Store { addr: u64, value: u64 },
}

/// `arch_prctl(op, addr)` for task `tid`: setting the GS or FS base records it
/// and loads it, reading one stores the recorded base at `addr` (not at 0); any
/// other request is refused.
pub fn arch_prctl_apply(tm: &mut TaskManager, tid: Tid, op: i32, addr: u64) -> (r: Result<ArchAction, Errno>)
    requires
        old(tm).tasks@.contains_key(tid),
    ensures
        final(tm).current == old(tm).current && final(tm).next_tid == old(tm).next_tid,
        ({
            let t = old(tm).tasks@[tid];
            if op == ARCH_SET_GS {
                r == Ok::<ArchAction, Errno>(ArchAction::WriteGsBase(addr))
                    && final(tm).tasks@ == old(tm).tasks@.insert(tid, Task { user_gs_base: addr, ..t })
            } else if op == ARCH_SET_FS {
                r == Ok::<ArchAction, Errno>(ArchAction::WriteFsBase(addr))
                    && final(tm).tasks@ == old(tm).tasks@.insert(tid, Task { user_fs_base: addr, ..t })
            } else if op == ARCH_GET_GS || op == ARCH_GET_FS {
                final(tm).tasks@ == old(tm).tasks@ && r == (if addr == 0 {
                    Err(Errno::InvalidArgument)
                } else {
                    Ok::<ArchAction, Errno>(ArchAction::Store {
                        addr,
                        value: if op == ARCH_GET_GS { t.user_gs_base } else { t.user_fs_base },
                    })
                })
            } else {
                final(tm).tasks@ == old(tm).tasks@ && r == Err::<ArchAction, Errno>(Errno::InvalidArgument)
            }
        }),
{
    if op == ARCH_SET_GS {
        let mut t = tm.tasks.remove(&tid).unwrap();
        t.user_gs_base = addr;
        tm.tasks.insert(tid, t);
        Ok(ArchAction::WriteGsBase(addr))
    } else if op == ARCH_SET_FS {
        let mut t = tm.tasks.remove(&tid).unwrap();
        t.user_fs_base = addr;
        tm.tasks.insert(tid, t);
        Ok(ArchAction::WriteFsBase(addr))
    } else if op == ARCH_GET_GS || op == ARCH_GET_FS {
        if addr == 0 {
            return Err(Errno::InvalidArgument);
        }
        let t = tm.tasks.get(&tid).unwrap();
        let value = if op == ARCH_GET_GS { t.user_gs_base } else { t.user_fs_base };
        Ok(ArchAction::Store { addr, value })
    } else {
        Err(Errno::InvalidArgument)
    }
}

/// `set_tid_address(tidptr)` for task `tid`: records the address to clear at
/// exit and returns the task id; a null address is refused.
pub fn set_tid_address(tm: &mut TaskManager, tid: Tid, tidptr: u64) -> (r: Result<u64, Errno>)
    requires
        tidptr != 0 ==> old(tm).tasks@.contains_key(tid),
    ensures
        tidptr == 0 ==> r == Err::<u64, Errno>(Errno::InvalidArgument) && final(tm).tasks@ == old(tm).tasks@,
        tidptr != 0 ==> r == Ok::<u64, Errno>(tid) && final(tm).tasks@ == old(tm).tasks@.insert(
            tid,
            Task { clear_child_tid: tidptr, ..old(tm).tasks@[tid] },
        ),
        final(tm).current == old(tm).current && final(tm).next_tid == old(tm).next_tid,
{
    if tidptr == 0 {
        return Err(Errno::InvalidArgument);
    }
    let mut t = tm.tasks.remove(&tid).unwrap();
    t.clear_child_tid = tidptr;
    tm.tasks.insert(tid, t);
    Ok(tid)
}

/// The pid of the running task, or no such process.
pub fn get_pid(tm: &TaskManager) -> (r: Result<u64, Errno>)
    ensures
        r == (if tm.tasks@.contains_key(tm.current) {
            Ok::<u64, Errno>(tm.tasks@[tm.current].pid)
        } else {
            Err(Errno::NoSuchProcess)
        }),
{
    match tm.tasks.get(&tm.current) {
        Some(t) => Ok(t.pid),
        None => Err(Errno::NoSuchProcess),
    }
}

/// The exit code of the first task, in the order of `ks`, that has exited and
/// belongs to one of the processes `pids`.
pub open spec fn first_exited(tasks: Map<u64, Task>, ks: Seq<u64>, pids: Seq<u64>) -> Option<i64>
    decreases ks.len(),
{
    if ks.len() == 0 {
        None
    } else {
        let t = tasks[ks[0]];
        if tasks.contains_key(ks[0]) && pids.contains(t.pid) && t.state is Exited {
            Some(t.state->Exited_0)
        } else {
            first_exited(tasks, ks.drop_first(), pids)
        }
    }
}

fn contains_u64(v: &[u64], x: u64) -> (r: bool)
    ensures
        r == v@.contains(x),
{
    let mut i: usize = 0;
    while i < v.len()
        invariant
            i <= v@.len(),
            forall|j: int| 0 <= j < i ==> v@[j] != x,
        decreases v@.len() - i,
    {
        if v[i] == x {
            return true;
        }
        i = i + 1;
    }
    false
}

/// What `waitid` collects: the exit code of the first task, in id order, that
/// has exited and belongs to one of the processes `pids` (the child asked for,
/// or all children of the caller).
pub fn find_exited(tm: &TaskManager, pids: &[u64]) -> (r: Option<i64>)
    ensures
        exists|ks: Seq<u64>| keys_in_order(ks, tm.tasks@.dom()) && r == first_exited(tm.tasks@, ks, pids@),
{
    let ids = task_ids(&tm.tasks);
    let ghost ks = ids@;
    let mut i: usize = 0;
    assert(ks.skip(0) =~= ks);
    while i < ids.len()
        invariant
            i <= ks.len(),
            ks == ids@,
            keys_in_order(ks, tm.tasks@.dom()),
            first_exited(tm.tasks@, ks, pids@) == first_exited(tm.tasks@, ks.skip(i as int), pids@),
        decreases ks.len() - i,
    {
        let k = ids[i];
        assert(ks.skip(i as int)[0] == k);
        assert(ks.skip(i as int).drop_first() =~= ks.skip(i + 1));
        assert(tm.tasks@.dom().contains(k)) by {
            assert(ks.to_set().contains(ks[i as int]));
        }
        let t = tm.tasks.get(&k).unwrap();
        if contains_u64(pids, t.pid) {
            if let TaskState::Exited(code) = t.state {
                return Some(code);
            }
        }
        i = i + 1;
    }
    assert(ks.skip(i as int) =~= Seq::<u64>::empty());
    None
}

/// No mask that `rt_sigprocmask` sets blocks SIGKILL or SIGSTOP.
pub proof fn law_sigmask_never_blocks_kill_stop(how: i32, old: u64, set: u64)
    ensures
        sigmask_after(how, old, set) matches Ok(m) ==> m & (1u64 << (SIGKILL - 1) as u64) == 0 && m & (1u64 << (
            SIGSTOP - 1) as u64) == 0,
{
    let a = (old | set) & !UNBLOCKABLE;
    let b = (old & !set) & !UNBLOCKABLE;
    let c = set & !UNBLOCKABLE;
    assert(a & (1u64 << 8u64) == 0 && a & (1u64 << 18u64) == 0 && b & (1u64 << 8u64) == 0 && b & (1u64 << 18u64) == 0
        && c & (1u64 << 8u64) == 0 && c & (1u64 << 18u64) == 0) by (bit_vector)
        requires
            a == (old | set) & !0x40100u64,
            b == (old & !set) & !0x40100u64,
            c == set & !0x40100u64,
    ;
}

/// What each `rt_sigprocmask` operation does to the blocked set, bit by bit, with
/// `k` the bits of SIGKILL and SIGSTOP: blocking adds the set's signals and drops
/// none; unblocking removes the set's signals and adds none; setting makes the
/// mask the set; none of them ever blocks SIGKILL or SIGSTOP; any other `how` is
/// refused.
pub proof fn law_sigmask_ops(how: i32, old: u64, set: u64)
    ensures
        ({
            let k = (1u64 << 8u64) | (1u64 << 18u64);
            let r = sigmask_after(how, old, set);
            &&& how == SIG_BLOCK ==> r is Ok && {
                let m = r->Ok_0;
                &&& (old | set) & !k & !m == 0
                &&& m & !(old | set) == 0
                &&& m & k == 0
            }
            &&& how == SIG_UNBLOCK ==> r is Ok && {
                let m = r->Ok_0;
                &&& m & set == 0
                &&& m & !old == 0
                &&& old & !set & !k & !m == 0
                &&& m & k == 0
            }
            &&& how == SIG_SETMASK ==> r is Ok && {
                let m = r->Ok_0;
                &&& m & !set == 0
                &&& set & !k & !m == 0
                &&& m & k == 0
            }
            &&& how != SIG_BLOCK && how != SIG_UNBLOCK && how != SIG_SETMASK ==> r == Err::<u64, Errno>(
                Errno::InvalidArgument,
            )
        }),
{
    let k = (1u64 << 8u64) | (1u64 << 18u64);
    assert(k == 0x40100u64) by (bit_vector)
        requires
            k == (1u64 << 8u64) | (1u64 << 18u64),
    ;
    let a = (old | set) & !UNBLOCKABLE;
    let b = (old & !set) & !UNBLOCKABLE;
    let c = set & !UNBLOCKABLE;
    assert((old | set) & !k & !a == 0 && a & !(old | set) == 0 && a & k == 0 && b & set == 0 && b & !old == 0
        && old & !set & !k & !b == 0 && b & k == 0 && c & !set == 0 && set & !k & !c == 0 && c & k == 0) by (bit_vector)
        requires
            k == 0x40100u64,
            a == (old | set) & !0x40100u64,
            b == (old & !set) & !0x40100u64,
            c == set & !0x40100u64,
    ;
}

/// The program break never leaves the heap: whatever `brk` is asked and
/// whether its page work succeeds, a break between the heap start and its
/// limit stays between them.
pub proof fn law_brk_stays_in_heap(addr: u64, brk_start: u64, brk: u64, brk_max: u64, pages_ok: bool)
    requires
        brk_start <= brk <= brk_max,
    ensures
        ({
            let r = match brk_plan_spec(addr, brk_start, brk, brk_max) {
                BrkPlan::Keep => brk,
                BrkPlan::Grow { new, .. } => if pages_ok { new } else { brk },
                BrkPlan::Shrink { new, .. } => if pages_ok { new } else { brk },
            };
            brk_start <= r <= brk_max
        }),
{
}

/// What `brk` maps or unmaps: nothing unless the break moves; when it grows, the
/// pages mapped start at the first page boundary at or above the old break (so no
/// page already holding heap bytes is mapped again) and end at the first page
/// boundary at or above the new break; when it shrinks, the pages unmapped run from
/// the first boundary at or above the new break to the first at or above the old.
pub proof fn law_brk_plan_pages(addr: u64, brk_start: u64, brk: u64, brk_max: u64)
    requires
        brk_moves(addr, brk_start, brk, brk_max) ==> brk + (PAGE_SIZE - 1) <= u64::MAX && addr + (
            PAGE_SIZE - 1) <= u64::MAX,
    ensures
        (brk_plan_spec(addr, brk_start, brk, brk_max) == BrkPlan::Keep) == !brk_moves(addr, brk_start, brk, brk_max),
        brk_plan_spec(addr, brk_start, brk, brk_max) matches BrkPlan::Grow { map_from, map_to, new } ==> {
            &&& new == addr && brk < addr
            &&& map_from % PAGE_SIZE == 0 && brk <= map_from < brk + PAGE_SIZE
            &&& map_to % PAGE_SIZE == 0 && addr <= map_to < addr + PAGE_SIZE
            &&& map_from <= map_to
        },
        brk_plan_spec(addr, brk_start, brk, brk_max) matches BrkPlan::Shrink { unmap_from, unmap_to, new } ==> {
            &&& new == addr && addr < brk
            &&& unmap_from % PAGE_SIZE == 0 && brk <= unmap_from < brk + PAGE_SIZE
            &&& unmap_to % PAGE_SIZE == 0 && addr <= unmap_to < addr + PAGE_SIZE
            &&& unmap_to <= unmap_from
        },
{
    if brk_moves(addr, brk_start, brk, brk_max) {
        crate::shared::lemma_round_up_page(brk as int);
        crate::shared::lemma_round_up_page(addr as int);
        let a = round_up(brk as int, PAGE_SIZE as int);
        let b = round_up(addr as int, PAGE_SIZE as int);
        if brk < addr {
            assert(a <= b) by (nonlinear_arith)
                requires
                    brk <= a < brk + 4096,
                    addr <= b < addr + 4096,
                    a % 4096 == 0,
                    b % 4096 == 0,
                    brk < addr,
            ;
        } else {
            assert(b <= a) by (nonlinear_arith)
                requires
                    brk <= a < brk + 4096,
                    addr <= b < addr + 4096,
                    a % 4096 == 0,
                    b % 4096 == 0,
                    addr < brk,
            ;
        }
    }
}

/// A placed anonymous mapping lies in user space, above the page-rounded
/// break, ends at the page-aligned mapping top and holds the requested
/// length.
pub proof fn law_mmap_in_user_space(len_rounded: u64, mmap_top: u64, brk: u64)
    requires
        mmap_place_spec(len_rounded, mmap_top, brk) is Ok,
    ensures
        ({
            let (b, e) = mmap_place_spec(len_rounded, mmap_top, brk)->Ok_0;
            &&& USER_SPACE_BOTTOM <= b && e <= USER_SPACE_TOP
            &&& b >= round_up(brk as int, PAGE_SIZE as int)
            &&& e == round_down(mmap_top as int, PAGE_SIZE as int)
            &&& e - b == len_rounded
        }),
{
}

} // verus!
