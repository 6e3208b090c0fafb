use vstd::prelude::*;
use crate::sys::wrappers::{lemma_sysno_value_injective, spec_sysno_value, Sysno};
use crate::utils::ringbuffer::SpscRing;

verus! {

/// The general-purpose registers saved on a trap, in stack order.
#[derive(Debug, Clone, Copy)]
pub struct GprFrame {
    pub r15: u64,
    pub r14: u64,
    pub r13: u64,
    pub r12: u64,
    pub r11: u64,
    pub r10: u64,
    pub r9: u64,
    pub r8: u64,
    pub rsi: u64,
    pub rdi: u64,
    pub rbp: u64,
    pub rdx: u64,
    pub rcx: u64,
    pub rbx: u64,
    pub rax: u64,
}

impl GprFrame {
    /// Every register is zero.
    pub open spec fn is_zero(&self) -> bool {
        &&& self.r15 == 0 && self.r14 == 0 && self.r13 == 0 && self.r12 == 0 && self.r11 == 0
        &&& self.r10 == 0 && self.r9 == 0 && self.r8 == 0 && self.rsi == 0 && self.rdi == 0
        &&& self.rbp == 0 && self.rdx == 0 && self.rcx == 0 && self.rbx == 0 && self.rax == 0
    }
}

impl Default for GprFrame {
    fn default() -> (r: Self)
        ensures
            r.is_zero(),
    {
        GprFrame {
            r15: 0,
            r14: 0,
            r13: 0,
            r12: 0,
            r11: 0,
            r10: 0,
            r9: 0,
            r8: 0,
            rsi: 0,
            rdi: 0,
            rbp: 0,
            rdx: 0,
            rcx: 0,
            rbx: 0,
            rax: 0,
        }
    }
}

/// What the CPU pushes for `iretq`.
#[derive(Debug, Clone, Copy)]
pub struct IretFrame {
    pub rip: u64,
    pub cs: u64,
    pub rflags: u64,
    pub rsp: u64,
    pub ss: u64,
}

/// A trap's saved state: registers, vector, error code and the iret frame.
#[derive(Debug, Clone, Copy)]
pub struct TrapFrame {
    pub regs: GprFrame,
    pub vector: u64,
    pub error_code: u64,
    pub iret: IretFrame,
}

/// The size in bytes of a trap frame on the kernel stack.
pub const TRAP_FRAME_SIZE: u64 = 176;

/// One traced system call: the calling process and the call's number.
#[derive(Debug, Clone, Copy)]
pub struct Strace {
    pub pid: u64,
    pub sysno: u64,
}

/// A system call with its arguments taken from the registers (rdi, rsi, rdx,
/// r10, r8, r9, in that order).
#[derive(Debug, Clone, Copy, PartialEq, Eq, Structural)]
pub enum Syscall {
    Read { fd: u32, ptr: u64, len: usize },
    Write { fd: u32, ptr: u64, len: usize },
    Open { ptr: u64, len: usize, flags: u64 },
    Close { fd: u64 },
    Brk { addr: u64 },
    Sleep { ms: u64 },
    Spawn { ptr: u64, len: usize, argv: u64 },
    Exit { code: i64 },
    Chdir { ptr: u64, len: usize },
    Getdents { fd: u64, ptr: u64, len: usize },
    Getcwd { ptr: u64, len: usize },
    Waitid { pid: u64 },
    Ps,
    GetPid,
    ArchPrctl { op: i32, addr: u64 },
    SetTidAddress { tidptr: u64 },
    ExitGroup { code: i64 },
    Writev { fd: u64, iovec: u64, iovcnt: u64 },
    Ioctl { fd: u32, op: i32, argp: u64 },
    RtSigAction { signum: i32, act: u64, oldact: u64, sigsetsize: u64 },
    RtSigProcMask { how: i32, set: u64, oldset: u64, sigsetsize: u64 },
    GetUid,
    GeteUid,
    Mmap { addr: u64, len: u64, prot: i32, flags: i32, fd: i32, offset: u64 },
    Umask { mask: u16 },
}

/// The call that `s` names, with its arguments read from `regs`.
pub open spec fn call_of(s: Sysno, regs: GprFrame) -> Syscall {
    match s {
        Sysno::Read => Syscall::Read { fd: regs.rdi as u32, ptr: regs.rsi, len: regs.rdx as usize },
        Sysno::Write => Syscall::Write { fd: regs.rdi as u32, ptr: regs.rsi, len: regs.rdx as usize },
        Sysno::Open => Syscall::Open { ptr: regs.rdi, len: regs.rsi as usize, flags: regs.rdx },
        Sysno::Close => Syscall::Close { fd: regs.rdi },
        Sysno::Brk => Syscall::Brk { addr: regs.rdi },
        Sysno::Sleep => Syscall::Sleep { ms: regs.rdi },
        Sysno::Spawn => Syscall::Spawn { ptr: regs.rdi, len: regs.rsi as usize, argv: regs.r10 },
        Sysno::Exit => Syscall::Exit { code: regs.rdi as i64 },
        Sysno::Chdir => Syscall::Chdir { ptr: regs.rdi, len: regs.rsi as usize },
        Sysno::Getdents => Syscall::Getdents { fd: regs.rdi, ptr: regs.rsi, len: regs.rdx as usize },
        Sysno::Getcwd => Syscall::Getcwd { ptr: regs.rdi, len: regs.rsi as usize },
        Sysno::Waitid => Syscall::Waitid { pid: regs.rdi },
        Sysno::Ps => Syscall::Ps,
        Sysno::GetPid => Syscall::GetPid,
        Sysno::ArchPrctl => Syscall::ArchPrctl { op: regs.rdi as i32, addr: regs.rsi },
        Sysno::SetTidAddress => Syscall::SetTidAddress { tidptr: regs.rdi },
        Sysno::ExitGroup => Syscall::ExitGroup { code: regs.rdi as i64 },
        Sysno::Writev => Syscall::Writev { fd: regs.rdi, iovec: regs.rsi, iovcnt: regs.rdx },
        Sysno::Ioctl => Syscall::Ioctl { fd: regs.rdi as u32, op: regs.rsi as i32, argp: regs.rdx },
        Sysno::RtSigAction => Syscall::RtSigAction { signum: regs.rdi as i32, act: regs.rsi, oldact: regs.rdx, sigsetsize: regs.r10 },
        Sysno::RtSigProcMask => Syscall::RtSigProcMask { how: regs.rdi as i32, set: regs.rsi, oldset: regs.rdx, sigsetsize: regs.r10 },
        Sysno::GetUid => Syscall::GetUid,
        Sysno::GeteUid => Syscall::GeteUid,
        Sysno::Mmap => Syscall::Mmap { addr: regs.rdi, len: regs.rsi, prot: regs.rdx as i32, flags: regs.r10 as i32, fd: regs.r8 as i32, offset: regs.r9 },
        Sysno::Umask => Syscall::Umask { mask: regs.rdi as u16 },
    }
}

/// The call requested by a trap's registers: the number in rax, the arguments
/// in the argument registers; none for an unknown number.
pub open spec fn decode_spec(regs: GprFrame) -> Option<Syscall> {
    if exists|s: Sysno| spec_sysno_value(s) == regs.rax {
        Some(call_of(choose|s: Sysno| spec_sysno_value(s) == regs.rax, regs))
    } else {
        None
    }
}

pub fn decode_syscall(regs: &GprFrame) -> (r: Option<Syscall>)
    ensures
        r == decode_spec(*regs),
{
    let s = match Sysno::try_from_u64(regs.rax) {
        Some(s) => s,
        None => return None,
    };
    proof {
        let c = choose|c: Sysno| spec_sysno_value(c) == regs.rax;
        lemma_sysno_value_injective(s, c);
    }
    Some(
        match s {
            Sysno::Read => Syscall::Read { fd: regs.rdi as u32, ptr: regs.rsi, len: regs.rdx as usize },
            Sysno::Write => Syscall::Write { fd: regs.rdi as u32, ptr: regs.rsi, len: regs.rdx as usize },
            Sysno::Open => Syscall::Open { ptr: regs.rdi, len: regs.rsi as usize, flags: regs.rdx },
            Sysno::Close => Syscall::Close { fd: regs.rdi },
            Sysno::Brk => Syscall::Brk { addr: regs.rdi },
            Sysno::Sleep => Syscall::Sleep { ms: regs.rdi },
            Sysno::Spawn => Syscall::Spawn { ptr: regs.rdi, len: regs.rsi as usize, argv: regs.r10 },
            Sysno::Exit => Syscall::Exit { code: regs.rdi as i64 },
            Sysno::Chdir => Syscall::Chdir { ptr: regs.rdi, len: regs.rsi as usize },
            Sysno::Getdents => Syscall::Getdents { fd: regs.rdi, ptr: regs.rsi, len: regs.rdx as usize },
            Sysno::Getcwd => Syscall::Getcwd { ptr: regs.rdi, len: regs.rsi as usize },
            Sysno::Waitid => Syscall::Waitid { pid: regs.rdi },
            Sysno::Ps => Syscall::Ps,
            Sysno::GetPid => Syscall::GetPid,
            Sysno::ArchPrctl => Syscall::ArchPrctl { op: regs.rdi as i32, addr: regs.rsi },
            Sysno::SetTidAddress => Syscall::SetTidAddress { tidptr: regs.rdi },
            Sysno::ExitGroup => Syscall::ExitGroup { code: regs.rdi as i64 },
            Sysno::Writev => Syscall::Writev { fd: regs.rdi, iovec: regs.rsi, iovcnt: regs.rdx },
            Sysno::Ioctl => Syscall::Ioctl { fd: regs.rdi as u32, op: regs.rsi as i32, argp: regs.rdx },
            Sysno::RtSigAction => Syscall::RtSigAction { signum: regs.rdi as i32, act: regs.rsi, oldact: regs.rdx, sigsetsize: regs.r10 },
            Sysno::RtSigProcMask => Syscall::RtSigProcMask { how: regs.rdi as i32, set: regs.rsi, oldset: regs.rdx, sigsetsize: regs.r10 },
            Sysno::GetUid => Syscall::GetUid,
            Sysno::GeteUid => Syscall::GeteUid,
            Sysno::Mmap => Syscall::Mmap { addr: regs.rdi, len: regs.rsi, prot: regs.rdx as i32, flags: regs.r10 as i32, fd: regs.r8 as i32, offset: regs.r9 },
            Sysno::Umask => Syscall::Umask { mask: regs.rdi as u16 },
        },
    )
}

/// A register frame whose rax holds a system call's number is decoded into
/// that call, with its arguments taken from the registers.
pub proof fn law_decode_names_the_call(s: Sysno, regs: GprFrame)
    requires
        regs.rax == spec_sysno_value(s),
    ensures
        decode_spec(regs) == Some(call_of(s, regs)),
{
    let c = choose|c: Sysno| spec_sysno_value(c) == regs.rax;
    lemma_sysno_value_injective(c, s);
}

/// Notes a call in the trace: the calling process and the call's number; the
/// note is dropped when the trace is full.
pub fn trace_call<const N: usize>(ring: &mut SpscRing<Strace, N>, pid: u64, sysno: u64)
    requires
        old(ring).wf(),
    ensures
        final(ring).wf(),
        old(ring)@.len() < N ==> final(ring)@ == old(ring)@.push(Strace { pid, sysno }),
        old(ring)@.len() >= N ==> final(ring)@ == old(ring)@,
{
    proof {
        ring.lemma_len_bound();
    }
    let _ = ring.push(Strace { pid, sysno });
}

/// What the dispatcher does with a trap: end the calling process with an exit
/// code, or run a call's handler.
#[derive(Debug, Clone, Copy, PartialEq, Eq, Structural)]
pub enum DispatchStep {
    ExitProcess { code: i64 },
    Run(Syscall),
}

/// The dispatcher's first decision: an unknown call number ends the process with
/// exit code 1, `exit` and `exit_group` end it with their code, and every other
/// call runs its handler.
pub open spec fn dispatch_step_spec(regs: GprFrame) -> DispatchStep {
    match decode_spec(regs) {
        None => DispatchStep::ExitProcess { code: 1 },
        Some(Syscall::Exit { code }) => DispatchStep::ExitProcess { code },
        Some(Syscall::ExitGroup { code }) => DispatchStep::ExitProcess { code },
        Some(c) => DispatchStep::Run(c),
    }
}

pub fn dispatch_step(regs: &GprFrame) -> (r: DispatchStep)
    ensures
        r == dispatch_step_spec(*regs),
{
    match decode_syscall(regs) {
        None => DispatchStep::ExitProcess { code: 1 },
        Some(Syscall::Exit { code }) => DispatchStep::ExitProcess { code },
        Some(Syscall::ExitGroup { code }) => DispatchStep::ExitProcess { code },
        Some(c) => DispatchStep::Run(c),
    }
}

/// The value rax holds when a call's handler returned `ret`: the value itself,
/// an error as its two's complement; `ps` and the user-id calls answer 0.
pub open spec fn rax_after(call: Syscall, ret: i64) -> u64 {
    match call {
        Syscall::Ps => 0,
        Syscall::GetUid => 0,
        Syscall::GeteUid => 0,
        _ => ret as u64,
    }
}

/// Writes a handled call's answer into rax, leaving the other registers as they
/// were.
pub fn complete_call(regs: &mut GprFrame, call: Syscall, ret: i64)
    ensures
        final(regs).rax == rax_after(call, ret),
        *final(regs) == (GprFrame { rax: rax_after(call, ret), ..*old(regs) }),
{
    regs.rax = match call {
        Syscall::Ps => 0,
        Syscall::GetUid => 0,
        Syscall::GeteUid => 0,
        _ => ret as u64,
    };
}

} // verus!
