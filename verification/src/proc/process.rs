use vstd::prelude::*;
use crate::shared::{align_up, round_up, PAGE_SIZE, USER_SPACE_MAX_HEAP_SIZE};
use crate::sys::errors::ProcessError;
use crate::syscall::syscall_dispatch::{GprFrame, IretFrame};
use crate::fs::file_descriptor::{FileKind, OpenFile};
use crate::fs::vfs::{Vfs, VfsNode};
use crate::proc::mmap_region::MmapRegion;
use crate::sys::errors::Errno;
use crate::sys::FileOpenFlags;
use crate::syscall::file_ops::{read_open_file, read_step_ok, vfs_file_len, write_open_file, write_step_ok, ReadStep, WriteStep};
use crate::syscall::syscall_impl::{
    brk_moves, brk_plan, brk_plan_spec, brk_result, close_fd, sigaction_check, sigaction_check_spec, sigmask_after, sigprocmask_apply, BrkPlan, NSIG,
    SIGKILL, SIGSTOP,
};

verus! {

/// RFLAGS with the interrupt flag set (and the always-one bit 1).
pub const USER_RFLAGS: u64 = 0x202;

/// A task's user-mode register state.
#[derive(Debug, Clone, Copy)]
pub struct UserContext {
    pub regs: GprFrame,
    pub iret: IretFrame,
}

/// Where a new process starts: entry point, user stack, arguments and kernel stack.
#[derive(Debug)]
pub struct InitialTaskInfo {
    pub entry_rip: u64,
    pub user_rsp: u64,
    pub argc: u64,
    pub argv_ptr: u64,
    pub kstack_top: u64,
}

/// The user context a new task starts in: `argc` in rdi, `argv` in rsi, every
/// other register zero, interrupts enabled, on the given user selectors.
pub fn make_initial_user_ctx(
    entry_rip: u64,
    user_stack_top: u64,
    argc: u64,
    argv_ptr: u64,
    user_cs: u64,
    user_ss: u64,
) -> (r: UserContext)
    ensures
        r.regs.rdi == argc,
        r.regs.rsi == argv_ptr,
        ({
            let g = r.regs;
            &&& g.r15 == 0 && g.r14 == 0 && g.r13 == 0 && g.r12 == 0 && g.r11 == 0 && g.r10 == 0
            &&& g.r9 == 0 && g.r8 == 0 && g.rbp == 0 && g.rdx == 0 && g.rcx == 0 && g.rbx == 0 && g.rax == 0
        }),
        r.iret == (IretFrame { rip: entry_rip, cs: user_cs, rflags: USER_RFLAGS, rsp: user_stack_top, ss: user_ss }),
{
    let mut regs = GprFrame::default();
    regs.rdi = argc;
    regs.rsi = argv_ptr;
    let iret = IretFrame { rip: entry_rip, cs: user_cs, rflags: 0x2 | (1u64 << 9u64), rsp: user_stack_top, ss: user_ss };
    assert(0x2u64 | (1u64 << 9u64) == 0x202u64) by (bit_vector);
    UserContext { regs, iret }
}

/// Puts `f` in the first free slot of a descriptor table, growing it if none is
/// free, and returns the slot.
pub fn alloc_fd<T>(fds: &mut Vec<Option<T>>, f: T) -> (r: usize)
    ensures
        r <= old(fds)@.len(),
        forall|i: int| 0 <= i < r ==> old(fds)@[i] is Some,
        r < old(fds)@.len() ==> old(fds)@[r as int] is None && final(fds)@ == old(fds)@.update(r as int, Some(f)),
        r == old(fds)@.len() ==> final(fds)@ == old(fds)@.push(Some(f)),
{
    let mut i: usize = 0;
    while i < fds.len()
        invariant
            i <= fds@.len(),
            fds@ == old(fds)@,
            forall|j: int| 0 <= j < i ==> old(fds)@[j] is Some,
        decreases fds@.len() - i,
    {
        if fds[i].is_none() {
            fds.set(i, Some(f));
            return i;
        }
        i = i + 1;
    }
    fds.push(Some(f));
    i
}

pub const AT_NULL: u64 = 0;
pub const AT_PHDR: u64 = 3;
pub const AT_PHENT: u64 = 4;
pub const AT_PHNUM: u64 = 5;
pub const AT_PAGESZ: u64 = 6;
pub const AT_ENTRY: u64 = 9;
pub const AT_RANDOM: u64 = 25;

/// The bytes that the first `k` arguments take on the stack, each with its NUL.
pub open spec fn args_size(args: Seq<Seq<u8>>, k: int) -> int
    decreases k,
{
    if k <= 0 {
        0
    } else {
        args_size(args, k - 1) + args[k - 1].len() + 1
    }
}

/// Where argument `k` is copied: below the ones before it, from the stack top.
pub open spec fn arg_addr(top: int, args: Seq<Seq<u8>>, k: int) -> int {
    top - args_size(args, k + 1)
}

/// The address of the 16 "random" bytes: below the arguments, 8-byte aligned.
pub open spec fn random_addr(top: int, args: Seq<Seq<u8>>) -> int {
    ((top - args_size(args, args.len() as int)) / 8) * 8 - 16
}

/// The words pushed below the random bytes, in push order: the auxiliary vector
/// (ending with AT_NULL, pushed first), an empty environment, the argument
/// pointers ending with a null, then `argc`.
pub open spec fn argv_words(top: int, args: Seq<Seq<u8>>, entry: u64, phdr: u64, phent: u64, phnum: u64) -> Seq<u64> {
    seq![0u64, AT_NULL, random_addr(top, args) as u64, AT_RANDOM, entry, AT_ENTRY, phnum, AT_PHNUM, phent, AT_PHENT, phdr,
        AT_PHDR, PAGE_SIZE, AT_PAGESZ, 0u64, 0u64] + Seq::new(args.len(), |i: int| arg_addr(top, args, args.len() - 1 - i) as u64)
        + seq![args.len() as u64]
}

/// The user stack fits the layout: the arguments stay 256 bytes above the
/// bottom, so do the random bytes, and the words 64 bytes above it.
pub open spec fn argv_fits(top: int, bottom: int, args: Seq<Seq<u8>>) -> bool {
    &&& (args.len() == 0 || top - args_size(args, args.len() as int) >= bottom + 256)
    &&& random_addr(top, args) >= bottom + 256
    &&& random_addr(top, args) - 8 * (args.len() + 17) >= bottom + 64
}

/// A program's initial user stack: where each piece of it goes.
#[derive(Debug)]
pub struct ArgvLayout {
    /// The final stack pointer (at `argc`).
    pub rsp: u64,
    pub argc: u64,
    /// Where the argument pointers start.
    pub argv_ptr: u64,
    /// Byte strings to copy: the arguments with their NULs and the random bytes.
    pub bytes: Vec<(u64, Vec<u8>)>,
    /// Words to store, in push order.
    pub words: Vec<(u64, u64)>,
}

/// The bytes of argument `k` as copied: its bytes and a NUL.
pub open spec fn with_nul(a: Seq<u8>) -> Seq<u8> {
    a.push(0u8)
}

/// The 16 bytes below the arguments: 0xA5, 0xA6, and so on.
pub open spec fn random_bytes() -> Seq<u8> {
    Seq::new(16, |i: int| (0xA5 + i) as u8)
}

fn push_word(sp: &mut u64, stack_bottom: u64, val: u64, words: &mut Vec<(u64, u64)>) -> (r: Result<(), ProcessError>)
    requires
        stack_bottom + 64 <= u64::MAX,
    ensures
        *old(sp) >= 8 && *old(sp) - 8 >= stack_bottom + 64 ==> r is Ok && *final(sp) == *old(sp) - 8
            && final(words)@ == old(words)@.push(((*old(sp) - 8) as u64, val)),
        !(*old(sp) >= 8 && *old(sp) - 8 >= stack_bottom + 64) ==> r == Err::<(), ProcessError>(ProcessError::OutOfMemory),
{
    *sp = match sp.checked_sub(8) {
        Some(v) => v,
        None => return Err(ProcessError::OutOfMemory),
    };
    if *sp < stack_bottom + 64 {
        return Err(ProcessError::OutOfMemory);
    }
    words.push((*sp, val));
    Ok(())
}

/// Lays out a program's initial user stack between `stack_bottom` and
/// `stack_top`: the argument strings from the top down, the random bytes below
/// them (8-byte aligned), then the words of `argv_words`. Fails with
/// `OutOfMemory` where the stack would come too near its bottom.
pub fn build_user_argv(
    stack_top: u64,
    stack_bottom: u64,
    args: &[Vec<u8>],
    entry: u64,
    phdr_addr: u64,
    phent: u64,
    phnum: u64,
) -> (r: Result<ArgvLayout, ProcessError>)
    requires
        stack_bottom + 256 <= u64::MAX,
    ensures
        ({
            let argsv = Seq::new(args@.len(), |i: int| args@[i]@);
            let top = stack_top as int;
            let words = argv_words(top, argsv, entry, phdr_addr, phent, phnum);
            &&& !argv_fits(top, stack_bottom as int, argsv) ==> r == Err::<ArgvLayout, ProcessError>(ProcessError::OutOfMemory)
            &&& argv_fits(top, stack_bottom as int, argsv) ==> r is Ok && {
                let l = r->Ok_0;
                &&& l.argc == args@.len()
                &&& l.rsp == random_addr(top, argsv) - 8 * words.len()
                &&& l.argv_ptr == l.rsp + 8
                &&& l.words@.len() == words.len()
                &&& forall|i: int| #![trigger l.words@[i]] 0 <= i < words.len() ==> l.words@[i] == (
                    (random_addr(top, argsv) - 8 * (i + 1)) as u64,
                    words[i],
                )
                &&& l.bytes@.len() == args@.len() + 1
                &&& forall|k: int| #![trigger l.bytes@[k]] 0 <= k < args@.len() ==> l.bytes@[k].0 == arg_addr(top, argsv, k)
                    && l.bytes@[k].1@ == with_nul(argsv[k])
                &&& l.bytes@[args@.len() as int].0 == random_addr(top, argsv)
                &&& l.bytes@[args@.len() as int].1@ == random_bytes()
            }
        }),
{
    let ghost argsv = Seq::new(args@.len(), |i: int| args@[i]@);
    let ghost top = stack_top as int;
    let argc = args.len() as u64;
    let mut sp = stack_top;
    let mut arg_ptrs: Vec<u64> = Vec::new();
    let mut bytes: Vec<(u64, Vec<u8>)> = Vec::new();
    let mut i: usize = 0;
    while i < args.len()
        invariant
            i <= args@.len(),
            argsv == Seq::new(args@.len(), |j: int| args@[j]@),
            top == stack_top as int,
            stack_bottom + 256 <= u64::MAX,
            sp == top - args_size(argsv, i as int),
            i > 0 ==> sp >= stack_bottom + 256,
            arg_ptrs@.len() == i,
            bytes@.len() == i,
            forall|k: int| 0 <= k < i ==> arg_ptrs@[k] == arg_addr(top, argsv, k),
            forall|k: int| #![trigger bytes@[k]] 0 <= k < i ==> bytes@[k].0 == arg_addr(top, argsv, k) && bytes@[k].1@
                == with_nul(argsv[k]),
            forall|k: int| 0 <= k <= i ==> args_size(argsv, k) <= args_size(argsv, i as int),
        decreases args@.len() - i,
    {
        let a = args[i].as_slice();
        let n: u64 = match (a.len() as u64).checked_add(1) {
            Some(v) => v,
            None => {
                proof {
                    lemma_args_size_mono(argsv, i + 1, args@.len() as int);
                }
                return Err(ProcessError::OutOfMemory);
            },
        };
        proof {
            assert(args_size(argsv, i + 1) == args_size(argsv, i as int) + argsv[i as int].len() + 1);
        }
        sp = match sp.checked_sub(n) {
            Some(v) => v,
            None => {
                proof {
                    lemma_args_size_mono(argsv, i + 1, args@.len() as int);
                }
                return Err(ProcessError::OutOfMemory);
            },
        };
        if sp < stack_bottom + 256 {
            proof {
                lemma_args_size_mono(argsv, i + 1, args@.len() as int);
            }
            return Err(ProcessError::OutOfMemory);
        }
        let mut copy = crate::fs::copy_bytes(a);
        copy.push(0u8);
        arg_ptrs.push(sp);
        bytes.push((sp, copy));
        i = i + 1;
    }
    let s_end: u64 = sp;
    sp = sp & !7u64;
    assert(s_end & !7u64 == (s_end / 8) * 8) by (bit_vector);
    sp = match sp.checked_sub(16) {
        Some(v) => v,
        None => return Err(ProcessError::OutOfMemory),
    };
    if sp < stack_bottom + 256 {
        return Err(ProcessError::OutOfMemory);
    }
    let random_ptr = sp;
    assert(random_ptr == random_addr(top, argsv));
    let mut rnd: Vec<u8> = Vec::new();
    let mut j: u8 = 0;
    while j < 16
        invariant
            j <= 16,
            rnd@ == random_bytes().subrange(0, j as int),
        decreases 16 - j,
    {
        rnd.push(0xA5u8.wrapping_add(j));
        j = j + 1;
        assert(rnd@ =~= random_bytes().subrange(0, j as int));
    }
    assert(rnd@ =~= random_bytes());
    bytes.push((random_ptr, rnd));
    let ghost words_spec = argv_words(top, argsv, entry, phdr_addr, phent, phnum);
    let mut words: Vec<(u64, u64)> = Vec::new();
    let ghost base = random_ptr as int;
    proof {
        if !argv_fits(top, stack_bottom as int, argsv) {
            assert(base - 8 * (args@.len() + 17) < stack_bottom + 64);
        }
    }
    let head: [u64; 16] = [0, AT_NULL, random_ptr, AT_RANDOM, entry, AT_ENTRY, phnum, AT_PHNUM, phent, AT_PHENT, phdr_addr,
        AT_PHDR, PAGE_SIZE, AT_PAGESZ, 0, 0];
    let mut h: usize = 0;
    while h < 16
        invariant
            h <= 16,
            sp == base - 8 * h,
            words@.len() == h,
            stack_bottom + 256 <= u64::MAX,
            base >= stack_bottom + 256,
            head@ == words_spec.subrange(0, 16),
            argsv == Seq::new(args@.len(), |j: int| args@[j]@),
            top == stack_top as int,
            words_spec.len() == args@.len() + 17,
            forall|k: int| #![trigger words@[k]] 0 <= k < h ==> words@[k] == ((base - 8 * (k + 1)) as u64, words_spec[k]),
            base - 8 * (args@.len() + 17) < stack_bottom + 64 ==> !argv_fits(top, stack_bottom as int, argsv),
        decreases 16 - h,
    {
        match push_word(&mut sp, stack_bottom, head[h], &mut words) {
            Ok(()) => {},
            Err(e) => return Err(e),
        }
        h = h + 1;
    }
    let mut k: usize = args.len();
    while k > 0
        invariant
            k <= args@.len(),
            arg_ptrs@.len() == args@.len(),
            forall|q: int| 0 <= q < args@.len() ==> arg_ptrs@[q] == arg_addr(top, argsv, q),
            sp == base - 8 * (16 + args@.len() - k),
            words@.len() == 16 + args@.len() - k,
            stack_bottom + 256 <= u64::MAX,
            words_spec.len() == args@.len() + 17,
            words_spec == argv_words(top, argsv, entry, phdr_addr, phent, phnum),
            argsv == Seq::new(args@.len(), |j: int| args@[j]@),
            top == stack_top as int,
            forall|q: int| #![trigger words@[q]] 0 <= q < words@.len() ==> words@[q] == ((base - 8 * (q + 1)) as u64, words_spec[q]),
            base - 8 * (args@.len() + 17) < stack_bottom + 64 ==> !argv_fits(top, stack_bottom as int, argsv),
        decreases k,
    {
        let p = arg_ptrs[k - 1];
        assert(words_spec[16 + args@.len() - k] == arg_addr(top, argsv, k - 1) as u64);
        match push_word(&mut sp, stack_bottom, p, &mut words) {
            Ok(()) => {},
            Err(e) => return Err(e),
        }
        k = k - 1;
    }
    let argv_ptr = sp;
    match push_word(&mut sp, stack_bottom, argc, &mut words) {
        Ok(()) => {},
        Err(e) => return Err(e),
    }
    Ok(ArgvLayout { rsp: sp, argc, argv_ptr, bytes, words })
}

proof fn lemma_args_size_mono(args: Seq<Seq<u8>>, a: int, b: int)
    requires
        0 <= a <= b,
    ensures
        args_size(args, a) <= args_size(args, b),
    decreases b - a,
{
    if a < b {
        lemma_args_size_mono(args, a, b - 1);
    }
}

/// The part of `path` after its last '/': a process's command name.
pub open spec fn base_name(path: Seq<u8>) -> Seq<u8>
    decreases path.len(),
{
    if path.len() == 0 {
        path
    } else if path.last() == 0x2Fu8 {
        Seq::empty()
    } else {
        base_name(path.drop_last()).push(path.last())
    }
}

/// The command name of a process started from `image_path`.
pub fn process_name(image_path: &[u8]) -> (r: Vec<u8>)
    ensures
        r@ == base_name(image_path@),
{
    let mut start = image_path.len();
    assert(image_path@.subrange(0, start as int) =~= image_path@);
    assert(image_path@.subrange(start as int, image_path@.len() as int) =~= Seq::<u8>::empty());
    assert(base_name(image_path@) + Seq::<u8>::empty() =~= base_name(image_path@));
    while start > 0 && image_path[start - 1] != 0x2Fu8
        invariant
            start <= image_path@.len(),
            base_name(image_path@) == base_name(image_path@.subrange(0, start as int)) + image_path@.subrange(
                start as int,
                image_path@.len() as int,
            ),
        decreases start,
    {
        let ghost p = image_path@.subrange(0, start as int);
        assert(p.drop_last() =~= image_path@.subrange(0, start - 1));
        assert(image_path@.subrange(start - 1, image_path@.len() as int) =~= seq![p.last()] + image_path@.subrange(
            start as int,
            image_path@.len() as int,
        ));
        assert(base_name(p) == base_name(p.drop_last()).push(p.last()));
        assert(base_name(p.drop_last()).push(p.last()) + image_path@.subrange(start as int, image_path@.len() as int)
            =~= base_name(p.drop_last()) + image_path@.subrange(start - 1, image_path@.len() as int));
        start = start - 1;
    }
    assert(base_name(image_path@.subrange(0, start as int)) =~= Seq::<u8>::empty());
    let mut out: Vec<u8> = Vec::new();
    let mut k = start;
    while k < image_path.len()
        invariant
            start <= k <= image_path@.len(),
            out@ == image_path@.subrange(start as int, k as int),
        decreases image_path@.len() - k,
    {
        out.push(image_path[k]);
        k = k + 1;
        assert(out@ =~= image_path@.subrange(start as int, k as int));
    }
    assert(base_name(image_path@) =~= out@);
    out
}

/// The heap start, heap limit and mapping top of a new process (see `heap_layout`).
pub open spec fn heap_layout_spec(max_mapped_va: u64, stack_top: u64) -> (u64, u64, u64) {
    let start = round_up(max_mapped_va + PAGE_SIZE, PAGE_SIZE as int);
    let top = stack_top - 0x0100_0000;
    let limit = if start + USER_SPACE_MAX_HEAP_SIZE <= top - PAGE_SIZE {
        start + USER_SPACE_MAX_HEAP_SIZE
    } else {
        top - PAGE_SIZE
    };
    (start as u64, limit as u64, top as u64)
}

/// A new process's heap and mapping area: the heap starts on the page after the
/// image's end, mappings grow down from 16 MiB below the stack top, and the heap
/// may grow to its limit but not into the page below the mapping area. Returns
/// the heap start, the heap's limit and the mapping top.
pub fn heap_layout(max_mapped_va: u64, stack_top: u64) -> (r: (u64, u64, u64))
    requires
        max_mapped_va + 2 * PAGE_SIZE <= u64::MAX,
        stack_top >= 0x0100_0000 + PAGE_SIZE,
        round_up(max_mapped_va + PAGE_SIZE, PAGE_SIZE as int) + USER_SPACE_MAX_HEAP_SIZE <= u64::MAX,
    ensures
        r == heap_layout_spec(max_mapped_va, stack_top),
{
    let heap_start = align_up(max_mapped_va + PAGE_SIZE);
    let mmap_top = stack_top - 0x0100_0000;
    let a = heap_start + USER_SPACE_MAX_HEAP_SIZE;
    let b = mmap_top - PAGE_SIZE;
    let brk_max = if a <= b { a } else { b };
    (heap_start, brk_max, mmap_top)
}

} // verus!

verus! {

/// A signal action as user space hands it over: handler, flags, restorer and the
/// mask to block while the handler runs.
#[derive(Debug, Clone, Copy, PartialEq, Eq, Structural)]
pub struct UserSigAction {
    pub handler: u64,
    pub flags: u64,
    pub restorer: u64,
    pub mask: u64,
}

/// The action every signal starts with: default handling.
pub open spec fn default_sigaction() -> UserSigAction {
    UserSigAction { handler: 0, flags: 0, restorer: 0, mask: 0 }
}

/// A process: its command name, ids, open descriptors, working directory, tasks,
/// the timer ticks it has run, its signal actions and mask, its heap, its
/// mappings and its file-creation mask. (Its page tables and frames are kept by
/// the memory manager.)
pub struct Process {
    pub cmd: Vec<u8>,
    pub pid: u64,
    pub fds: Vec<Option<OpenFile>>,
    pub cwd_node: VfsNode,
    pub parent_pid: Option<u64>,
    pub tasks: Vec<u64>,
    pub ticks_run: u64,
    pub sigactions: Vec<UserSigAction>,
    pub sigmask: u64,
    pub brk_start: u64,
    pub brk: u64,
    pub brk_max: u64,
    pub mmaps: Vec<MmapRegion>,
    pub mmap_top: u64,
    pub umask: u16,
}

/// A terminal descriptor with the given open flags, at offset 0 with nothing read.
pub open spec fn tty_file(flags: u64) -> OpenFile {
    OpenFile { kind: FileKind::Tty, offset: 0, flags: FileOpenFlags { bits: flags }, cache: None }
}

fn new_tty_file(flags: u64) -> (r: OpenFile)
    ensures
        r == tty_file(flags),
{
    OpenFile { kind: FileKind::Tty, offset: 0, flags: FileOpenFlags { bits: flags }, cache: None }
}

/// Descriptor `fd` is open in table `fds`.
pub open spec fn fd_open(fds: Seq<Option<OpenFile>>, fd: int) -> bool {
    0 <= fd < fds.len() && fds[fd] is Some
}

/// The state a new process starts in: named after the last part of its image path,
/// with one task, standard input on the terminal for reading and standard output
/// and error on it for writing, the heap laid out after its image (see
/// `heap_layout`) and empty, no mappings, default signal actions, nothing
/// blocked, file-creation mask 022 and no ticks run.
pub fn new_process(
    pid: u64,
    image_path: &[u8],
    parent_pid: Option<u64>,
    cwd_node: VfsNode,
    tid: u64,
    max_mapped_va: u64,
    user_rsp: u64,
) -> (r: Process)
    requires
        max_mapped_va + 2 * PAGE_SIZE <= u64::MAX,
        user_rsp >= 0x0100_0000 + PAGE_SIZE,
        round_up(max_mapped_va + PAGE_SIZE, PAGE_SIZE as int) + USER_SPACE_MAX_HEAP_SIZE <= u64::MAX,
    ensures
        r.pid == pid,
        r.cmd@ == base_name(image_path@),
        r.parent_pid == parent_pid,
        r.tasks@ == seq![tid],
        r.cwd_node == cwd_node,
        r.fds@ == seq![
            Some(tty_file(FileOpenFlags::READ)),
            Some(tty_file(FileOpenFlags::WRITE)),
            Some(tty_file(FileOpenFlags::WRITE)),
        ],
        (r.brk_start, r.brk_max, r.mmap_top) == heap_layout_spec(max_mapped_va, user_rsp),
        r.brk == r.brk_start,
        r.umask == 0o022,
        r.sigmask == 0,
        r.mmaps@.len() == 0,
        r.ticks_run == 0,
        r.sigactions@ == Seq::new(NSIG as nat, |i: int| default_sigaction()),
{
    let cmd = process_name(image_path);
    let (brk_start, brk_max, mmap_top) = heap_layout(max_mapped_va, user_rsp);
    let mut fds: Vec<Option<OpenFile>> = Vec::new();
    fds.push(Some(new_tty_file(FileOpenFlags::READ)));
    fds.push(Some(new_tty_file(FileOpenFlags::WRITE)));
    fds.push(Some(new_tty_file(FileOpenFlags::WRITE)));
    let mut tasks: Vec<u64> = Vec::new();
    tasks.push(tid);
    let mut sigactions: Vec<UserSigAction> = Vec::new();
    let mut i: usize = 0;
    while i < NSIG
        invariant
            i <= NSIG,
            sigactions@ == Seq::new(i as nat, |k: int| default_sigaction()),
        decreases NSIG - i,
    {
        sigactions.push(UserSigAction { handler: 0, flags: 0, restorer: 0, mask: 0 });
        i = i + 1;
        assert(sigactions@ =~= Seq::new(i as nat, |k: int| default_sigaction()));
    }
    assert(fds@ =~= seq![
        Some(tty_file(FileOpenFlags::READ)),
        Some(tty_file(FileOpenFlags::WRITE)),
        Some(tty_file(FileOpenFlags::WRITE)),
    ]);
    assert(tasks@ =~= seq![tid]);
    Process {
        cmd,
        pid,
        fds,
        cwd_node,
        parent_pid,
        tasks,
        ticks_run: 0,
        sigactions,
        sigmask: 0,
        brk_start,
        brk: brk_start,
        brk_max,
        mmaps: Vec::new(),
        mmap_top,
        umask: 0o022,
    }
}

/// What `Process::sigaction(signum, act, want_old, sigsetsize)` does, taking `p0`
/// to `p1` and answering `r`.
pub open spec fn sigaction_done(
    p0: Process,
    signum: i32,
    act: Option<UserSigAction>,
    want_old: bool,
    sigsetsize: u64,
    p1: Process,
    r: Result<Option<UserSigAction>, Errno>,
) -> bool {
    match sigaction_check_spec(signum, act is Some, sigsetsize) {
        Err(e) => r == Err::<Option<UserSigAction>, Errno>(e) && p1 == p0,
        Ok(sig) => {
            &&& r == Ok::<Option<UserSigAction>, Errno>(
                if want_old { Some(p0.sigactions@[sig as int]) } else { None },
            )
            &&& p1.sigactions@ == (match act {
                Some(a) => p0.sigactions@.update(sig - 1, a),
                None => p0.sigactions@,
            })
            &&& p1 == (Process { sigactions: p1.sigactions, ..p0 })
        },
    }
}

/// Installing an action for signal `s` and then asking for the action of signal
/// `t` answers the installed action exactly when `t` is `s - 1` (the slot the
/// install writes), and the earlier action otherwise; the query changes nothing.
pub proof fn law_sigaction_install_then_query(
    p0: Process,
    p1: Process,
    p2: Process,
    s: i32,
    a: UserSigAction,
    t: i32,
    r1: Result<Option<UserSigAction>, Errno>,
    r2: Result<Option<UserSigAction>, Errno>,
)
    requires
        p0.sigactions@.len() == NSIG,
        sigaction_done(p0, s, Some(a), false, 8, p1, r1),
        r1 is Ok,
        sigaction_done(p1, t, None, true, 8, p2, r2),
        0 < t < NSIG,
    ensures
        r2 == Ok::<Option<UserSigAction>, Errno>(
            Some(if t == s - 1 { a } else { p0.sigactions@[t as int] }),
        ),
        p2.sigactions@ == p1.sigactions@,
        p2 == (Process { sigactions: p2.sigactions, ..p1 }),
{
}

impl Process {
    pub fn get_cwd(&self) -> (r: VfsNode)
        ensures
            r == self.cwd_node,
    {
        self.cwd_node
    }

    pub fn set_cwd(&mut self, node: VfsNode)
        ensures
            *final(self) == (Process { cwd_node: node, ..*old(self) }),
    {
        self.cwd_node = node;
    }

    /// Charges one timer tick to the process.
    pub fn charge_tick(&mut self)
        requires
            old(self).ticks_run < u64::MAX,
        ensures
            *final(self) == (Process { ticks_run: (old(self).ticks_run + 1) as u64, ..*old(self) }),
    {
        self.ticks_run = self.ticks_run + 1;
    }

    /// Opens a descriptor: the first free slot, else a new one at the end.
    pub fn alloc_fd(&mut self, f: OpenFile) -> (r: usize)
        ensures
            r <= old(self).fds@.len(),
            forall|i: int| 0 <= i < r ==> old(self).fds@[i] is Some,
            r < old(self).fds@.len() ==> old(self).fds@[r as int] is None && final(self).fds@ == old(self).fds@.update(
                r as int,
                Some(f),
            ),
            r == old(self).fds@.len() ==> final(self).fds@ == old(self).fds@.push(Some(f)),
            *final(self) == (Process { fds: final(self).fds, ..*old(self) }),
    {
        alloc_fd(&mut self.fds, f)
    }

    /// `close(fd)`: 0 and 1 cannot be closed, a descriptor past the table
    /// overflows, a free slot is a bad descriptor; otherwise it is freed.
    pub fn close(&mut self, fd: u64) -> (r: i64)
        ensures
            *final(self) == (Process { fds: final(self).fds, ..*old(self) }),
            fd == 0 || fd == 1 ==> r == -22 && final(self).fds@ == old(self).fds@,
            fd > 1 && fd >= old(self).fds@.len() ==> r == -75 && final(self).fds@ == old(self).fds@,
            fd > 1 && fd < old(self).fds@.len() && old(self).fds@[fd as int] is None ==> r == -9
                && final(self).fds@ == old(self).fds@,
            fd > 1 && fd < old(self).fds@.len() && old(self).fds@[fd as int] is Some ==> r == 0
                && final(self).fds@ == old(self).fds@.update(fd as int, None),
    {
        close_fd(&mut self.fds, fd)
    }

    /// `umask(mask)`: keeps the permission bits of `mask` and returns the old mask.
    pub fn set_umask(&mut self, mask: u16) -> (r: u16)
        ensures
            r == old(self).umask,
            *final(self) == (Process { umask: mask & 0o777, ..*old(self) }),
    {
        let old_mask = self.umask;
        self.umask = mask & 0o777;
        old_mask
    }

    /// What `brk(addr)` asks of the process's heap.
    pub fn brk_request(&self, addr: u64) -> (r: BrkPlan)
        requires
            brk_moves(addr, self.brk_start, self.brk, self.brk_max) ==> self.brk + (PAGE_SIZE - 1)
                <= u64::MAX && addr + (PAGE_SIZE - 1) <= u64::MAX,
        ensures
            r == brk_plan_spec(addr, self.brk_start, self.brk, self.brk_max),
    {
        brk_plan(addr, self.brk_start, self.brk, self.brk_max)
    }

    /// Ends `brk`: the break moves to the plan's new end where its page work
    /// succeeded, and the break is returned.
    pub fn finish_brk(&mut self, plan: BrkPlan, pages_ok: bool) -> (r: u64)
        ensures
            r == match plan {
                BrkPlan::Keep => old(self).brk,
                BrkPlan::Grow { new, .. } => if pages_ok { new } else { old(self).brk },
                BrkPlan::Shrink { new, .. } => if pages_ok { new } else { old(self).brk },
            },
            *final(self) == (Process { brk: r, ..*old(self) }),
    {
        let r = brk_result(plan, self.brk, pages_ok);
        self.brk = r;
        r
    }

    /// Records a served mapping of `len_rounded` bytes at `base`: the mapping top
    /// moves down to it and the region is added to the list.
    pub fn record_mmap(&mut self, base: u64, len_rounded: u64, prot: i32, flags: i32)
        ensures
            final(self).mmap_top == base,
            final(self).mmaps@.len() == old(self).mmaps@.len() + 1,
            final(self).mmaps@.drop_last() == old(self).mmaps@,
            final(self).mmaps@.last() == (MmapRegion { start: base, len: len_rounded, prot, flags }),
            *final(self) == (Process { mmap_top: base, mmaps: final(self).mmaps, ..*old(self) }),
    {
        self.mmap_top = base;
        self.mmaps.push(MmapRegion { start: base, len: len_rounded, prot, flags });
        assert(self.mmaps@.drop_last() =~= old(self).mmaps@);
    }

    /// `rt_sigaction(signum, act, old)`: after the checks of `sigaction_check`
    /// (`act` present standing for a non-null pointer), gives the action stored
    /// at index `signum` when `want_old`, and installs `act` at index
    /// `signum - 1`.
    pub fn sigaction(&mut self, signum: i32, act: Option<UserSigAction>, want_old: bool, sigsetsize: u64) -> (r: Result<
        Option<UserSigAction>,
        Errno,
    >)
        requires
            old(self).sigactions@.len() == NSIG,
        ensures
            final(self).sigactions@.len() == NSIG,
            sigaction_done(*old(self), signum, act, want_old, sigsetsize, *final(self), r),
    {
        let act_ptr: u64 = if act.is_some() { 1 } else { 0 };
        let sig = match sigaction_check(signum, act_ptr, sigsetsize) {
            Ok(s) => s,
            Err(e) => return Err(e),
        };
        let old_act = if want_old { Some(self.sigactions[sig]) } else { None };
        match act {
            Some(a) => {
                self.sigactions.set(sig - 1, a);
            },
            None => {},
        }
        Ok(old_act)
    }

    /// `rt_sigprocmask(how, set)`: with a signal set of other than 8 bytes nothing
    /// happens and the call fails; otherwise the old mask is handed back to copy
    /// out, no set only asks, and a set changes the mask as `sigmask_after` says
    /// (an unknown `how` fails and changes nothing). Returns the old mask to copy
    /// out, if any, and the call's result.
    pub fn rt_sigprocmask(&mut self, how: i32, set: Option<u64>, sigsetsize: u64) -> (r: (Option<u64>, i64))
        ensures
            sigsetsize != 8 ==> r == (None::<u64>, -22i64) && *final(self) == *old(self),
            sigsetsize == 8 ==> r.0 == Some(old(self).sigmask),
            sigsetsize == 8 && set is None ==> r.1 == 0 && *final(self) == *old(self),
            sigsetsize == 8 && set is Some ==> match sigmask_after(how, old(self).sigmask, set->Some_0) {
                Ok(m) => r.1 == 0 && *final(self) == (Process { sigmask: m, ..*old(self) }),
                Err(_) => r.1 == -22 && *final(self) == *old(self),
            },
    {
        if sigsetsize != 8 {
            return (None, Errno::InvalidArgument.as_i64());
        }
        let old_mask = self.sigmask;
        match set {
            None => (Some(old_mask), 0),
            Some(s) => match sigprocmask_apply(how, old_mask, s) {
                Ok(m) => {
                    self.sigmask = m;
                    (Some(old_mask), 0)
                },
                Err(e) => (Some(old_mask), e.as_i64()),
            },
        }
    }

    /// `read(fd, ptr_out, len)` as far as the descriptor table goes: a null buffer
    /// is a bad address, a zero length reads nothing, a descriptor that is not
    /// open is bad; otherwise the open descriptor reads as `read_open_file` says.
    pub fn read_fd(&mut self, vfs: &mut Vfs, fd: u32, ptr_out: u64, len: usize) -> (r: ReadStep)
        requires
            old(vfs).wf(),
            fd_open(old(self).fds@, fd as int) ==> (old(self).fds@[fd as int]->Some_0.kind matches FileKind::File {
                node,
            } ==> old(vfs).view().valid(node)),
        ensures
            final(vfs).wf(),
            final(vfs).sources == old(vfs).sources,
            final(vfs).procfs == old(vfs).procfs,
            ptr_out == 0 ==> r is Fail && r->Fail_0 == Errno::BadAdress && *final(self) == *old(self)
                && *final(vfs) == *old(vfs),
            ptr_out != 0 && len == 0 ==> r is Bytes && r->Bytes_0@.len() == 0 && *final(self) == *old(self)
                && *final(vfs) == *old(vfs),
            ptr_out != 0 && len > 0 && !fd_open(old(self).fds@, fd as int) ==> r is Fail && r->Fail_0
                == Errno::BadFileDescriptor && *final(self) == *old(self) && *final(vfs) == *old(vfs),
            ptr_out != 0 && len > 0 && fd_open(old(self).fds@, fd as int) ==> {
                &&& fd_open(final(self).fds@, fd as int)
                &&& final(self).fds@ == old(self).fds@.update(fd as int, final(self).fds@[fd as int])
                &&& read_step_ok(
                    *old(vfs),
                    *final(vfs),
                    old(self).fds@[fd as int]->Some_0,
                    final(self).fds@[fd as int]->Some_0,
                    len,
                    r,
                )
                &&& *final(self) == (Process { fds: final(self).fds, ..*old(self) })
            },
    {
        if ptr_out == 0 {
            return ReadStep::Fail(Errno::BadAdress);
        }
        if len == 0 {
            return ReadStep::Bytes(Vec::new());
        }
        let i = fd as usize;
        if i >= self.fds.len() || self.fds[i].is_none() {
            return ReadStep::Fail(Errno::BadFileDescriptor);
        }
        let slot = self.fds.remove(i);
        let mut of = slot.unwrap();
        let r = read_open_file(vfs, &mut of, len);
        self.fds.insert(i, Some(of));
        assert(self.fds@ =~= old(self).fds@.update(fd as int, self.fds@[fd as int]));
        r
    }

    /// `write(fd, ptr, bytes)` as far as the descriptor table goes: a null buffer is
    /// a bad address, nothing to write writes nothing, a descriptor that is not open
    /// is bad; otherwise the open descriptor writes as `write_open_file` says.
    pub fn write_fd(&mut self, vfs: &mut Vfs, fd: u32, ptr: u64, bytes: &[u8]) -> (r: WriteStep)
        requires
            old(vfs).wf(),
            fd_open(old(self).fds@, fd as int) ==> ({
                let of = old(self).fds@[fd as int]->Some_0;
                &&& of.kind matches FileKind::File { node } ==> old(vfs).view().valid(node)
                &&& of.offset + bytes@.len() <= usize::MAX
                &&& of.kind matches FileKind::File { node } ==> (vfs_file_len(old(vfs), node) matches Ok(l) ==> l
                    + bytes@.len() <= usize::MAX)
            }),
        ensures
            final(vfs).wf(),
            final(vfs).sources == old(vfs).sources,
            final(vfs).procfs == old(vfs).procfs,
            ptr == 0 ==> r == WriteStep::Fail(Errno::BadAdress) && *final(self) == *old(self) && *final(vfs)
                == *old(vfs),
            ptr != 0 && bytes@.len() == 0 ==> r == WriteStep::Wrote(0) && *final(self) == *old(self)
                && *final(vfs) == *old(vfs),
            ptr != 0 && bytes@.len() > 0 && !fd_open(old(self).fds@, fd as int) ==> r == WriteStep::Fail(
                Errno::BadFileDescriptor,
            ) && *final(self) == *old(self) && *final(vfs) == *old(vfs),
            ptr != 0 && bytes@.len() > 0 && fd_open(old(self).fds@, fd as int) ==> {
                &&& fd_open(final(self).fds@, fd as int)
                &&& final(self).fds@ == old(self).fds@.update(fd as int, final(self).fds@[fd as int])
                &&& write_step_ok(
                    *old(vfs),
                    *final(vfs),
                    old(self).fds@[fd as int]->Some_0,
                    final(self).fds@[fd as int]->Some_0,
                    bytes@,
                    r,
                )
                &&& *final(self) == (Process { fds: final(self).fds, ..*old(self) })
            },
    {
        if ptr == 0 {
            return WriteStep::Fail(Errno::BadAdress);
        }
        if bytes.len() == 0 {
            return WriteStep::Wrote(0);
        }
        let i = fd as usize;
        if i >= self.fds.len() || self.fds[i].is_none() {
            return WriteStep::Fail(Errno::BadFileDescriptor);
        }
        let slot = self.fds.remove(i);
        let mut of = slot.unwrap();
        let r = write_open_file(vfs, &mut of, bytes);
        self.fds.insert(i, Some(of));
        assert(self.fds@ =~= old(self).fds@.update(fd as int, self.fds@[fd as int]));
        r
    }
}

} // verus!
