use std::collections::VecDeque;

use ros::fs::file_descriptor::FileKind;
use ros::fs::vfs::VfsNode;
use ros::fs::DirEntry;
use ros::proc::process::InitialTaskInfo;
use ros::proc::proc_manager::spawn_task;
use ros::proc::task_manager::{TaskManager, TaskState, WaitReason};
use ros::sys::errors::Errno;
use ros::sys::syscall::{DirentHeader, FileKindTag};
use ros::sys::wrappers::Sysno;
use ros::sys::FileOpenFlags;
use ros::syscall::helpers::{current_pid, ms_to_ticks, sig_bit};
use ros::syscall::syscall_dispatch::{complete_call, decode_syscall, dispatch_step, DispatchStep, GprFrame, Syscall};
use ros::syscall::syscall_impl::{
    arch_prctl_apply, block_on_child, block_on_io, block_on_sleep, brk_plan, brk_result, close_fd, fill_dirents,
    find_exited, get_pid, getcwd_bytes, mark_exited, mmap_page_access, mmap_place, mmap_region, mmap_validate, open_kind,
    set_tid_address, sigaction_check, sigprocmask_apply, umask_value, wake_waiting_parent, write_offset, writev_check,
    writev_step, ArchAction, BrkPlan, WritevStep, SIG_BLOCK, SIG_SETMASK, SIG_UNBLOCK,
};
use ros::syscall::{ARCH_GET_FS, ARCH_SET_FS, ARCH_SET_GS};

fn regs(rax: u64, rdi: u64, rsi: u64, rdx: u64) -> GprFrame {
    let mut g = GprFrame::default();
    g.rax = rax;
    g.rdi = rdi;
    g.rsi = rsi;
    g.rdx = rdx;
    g
}

#[test]
fn decode_known_calls() {
    assert_eq!(decode_syscall(&regs(1, 1, 0x1000, 5)), Some(Syscall::Write { fd: 1, ptr: 0x1000, len: 5 }));
    assert_eq!(decode_syscall(&regs(12, 0x50_0000, 0, 0)), Some(Syscall::Brk { addr: 0x50_0000 }));
    assert_eq!(decode_syscall(&regs(3, 4, 0, 0)), Some(Syscall::Close { fd: 4 }));
    assert_eq!(decode_syscall(&regs(7, 0, 0, 0)), None);
}

#[test]
fn sysno_numbers_and_names() {
    assert_eq!(Sysno::try_from_u64(158), Some(Sysno::ArchPrctl));
    assert_eq!(Sysno::ArchPrctl.as_u64(), 158);
    assert_eq!(Sysno::try_from_u64(501), None);
    assert_eq!(Sysno::RtSigProcMask.name_bytes(), b"RtSigProcMask".to_vec());
    assert_eq!(format!("{:?}", Sysno::Getdents).into_bytes(), Sysno::Getdents.name_bytes());
}

#[test]
fn errno_values() {
    assert_eq!(Errno::InvalidArgument.as_i64(), -22);
    assert_eq!(Errno::try_from_i64(-9), Some(Errno::BadFileDescriptor));
    assert_eq!(Errno::try_from_i64(-999), Some(Errno::NoSuchProcess));
    assert_eq!(Errno::try_from_i64(-998), None);
    assert_eq!(Errno::try_from_i64(0), None);
}

#[test]
fn brk_moves_within_limits() {
    let (start, brk, max) = (0x40_3000, 0x40_3000, 0x840_3000);
    assert_eq!(brk_plan(0, start, brk, max), BrkPlan::Keep);
    assert_eq!(brk_plan(0x40_2000, start, brk, max), BrkPlan::Keep);
    assert_eq!(brk_plan(0x900_0000, start, brk, max), BrkPlan::Keep);
    assert_eq!(brk_plan(0x40_5010, start, brk, max), BrkPlan::Grow { map_from: 0x40_3000, map_to: 0x40_6000, new: 0x40_5010 });
    assert_eq!(
        brk_plan(0x40_3800, start, 0x40_5010, max),
        BrkPlan::Shrink { unmap_from: 0x40_6000, unmap_to: 0x40_4000, new: 0x40_3800 }
    );
    let plan = brk_plan(0x40_5010, start, brk, max);
    assert_eq!(brk_result(plan, brk, true), 0x40_5010);
    assert_eq!(brk_result(plan, brk, false), brk);
    assert_eq!(brk_result(BrkPlan::Keep, brk, true), brk);
}

#[test]
fn mmap_checks_and_placement() {
    assert_eq!(mmap_validate(5000, 0x22, -1, 0), Ok(0x2000));
    assert_eq!(mmap_validate(0, 0x22, -1, 0), Err(Errno::InvalidArgument));
    assert_eq!(mmap_validate(4096, 0x02, -1, 0), Err(Errno::InvalidArgument));
    assert_eq!(mmap_validate(4096, 0x22, 3, 0), Err(Errno::InvalidArgument));
    assert_eq!(mmap_validate(4096, 0x32, -1, 0), Err(Errno::InvalidArgument));
    assert_eq!(mmap_place(0x2000, 0x7f00_0000, 0x40_5000), Ok((0x7eff_e000, 0x7f00_0000)));
    assert_eq!(mmap_place(0x7f00_0000, 0x7f00_0000, 0x40_5000), Err(Errno::OutOfMemory));
    assert_eq!(mmap_place(0x1000, 0x7f00_0000, 0x7eff_f800), Err(Errno::OutOfMemory));
    assert_eq!(mmap_page_access(0x3), (true, false));
    assert_eq!(mmap_page_access(0x5), (false, true));
    let r = mmap_region(0x7eff_e000, 0x2000, 3, 0x22);
    assert_eq!((r.start, r.len, r.prot, r.flags), (0x7eff_e000, 0x2000, 3, 0x22));
}

#[test]
fn sigprocmask_never_blocks_kill_or_stop() {
    let kill_stop = sig_bit(9) | sig_bit(19);
    assert_eq!(sigprocmask_apply(SIG_BLOCK, 0x1, u64::MAX), Ok(u64::MAX & !kill_stop));
    assert_eq!(sigprocmask_apply(SIG_UNBLOCK, 0xff, 0x0f), Ok(0xf0));
    assert_eq!(sigprocmask_apply(SIG_SETMASK, 0xff, kill_stop | 0x2), Ok(0x2));
    assert_eq!(sigprocmask_apply(7, 0, 0), Err(Errno::InvalidArgument));
    assert_eq!(sig_bit(1), 1);
    assert_eq!(sig_bit(64), 1 << 63);
}

#[test]
fn sigaction_argument_checks() {
    assert_eq!(sigaction_check(2, 0x1000, 8), Ok(2));
    assert_eq!(sigaction_check(9, 0x1000, 8), Err(Errno::InvalidArgument));
    assert_eq!(sigaction_check(9, 0, 8), Ok(9));
    assert_eq!(sigaction_check(0, 0, 8), Err(Errno::InvalidArgument));
    assert_eq!(sigaction_check(64, 0, 8), Err(Errno::InvalidArgument));
    assert_eq!(sigaction_check(2, 0, 4), Err(Errno::InvalidArgument));
}

#[test]
fn umask_keeps_permission_bits() {
    assert_eq!(umask_value(0o022), 0o022);
    assert_eq!(umask_value(0o7777), 0o777);
}

#[test]
fn close_descriptor_table() {
    let mut fds: Vec<Option<u8>> = vec![Some(0), Some(1), Some(2), None];
    assert_eq!(close_fd(&mut fds, 1), -22);
    assert_eq!(close_fd(&mut fds, 9), -75);
    assert_eq!(close_fd(&mut fds, 3), -9);
    assert_eq!(close_fd(&mut fds, 2), 0);
    assert_eq!(fds[2], None);
}

#[test]
fn open_flags_decide_offset_and_kind() {
    let trunc = FileOpenFlags { bits: FileOpenFlags::WRITE | FileOpenFlags::TRUNCATE };
    let append = FileOpenFlags { bits: FileOpenFlags::WRITE | FileOpenFlags::APPEND };
    let read = FileOpenFlags { bits: FileOpenFlags::READ };
    assert_eq!(write_offset(trunc, 7, 100), 0);
    assert_eq!(write_offset(append, 7, 100), 100);
    assert_eq!(write_offset(read, 7, 100), 7);
    let node = VfsNode { mount: 0, node: 3 };
    assert_eq!(open_kind(FileKindTag::File, node, trunc), Ok(FileKind::File { node }));
    assert_eq!(open_kind(FileKindTag::Dir, node, read), Ok(FileKind::Dir { node }));
    assert_eq!(open_kind(FileKindTag::Dir, node, trunc), Err(Errno::OperationNotPermitted));
    assert_eq!(FileOpenFlags::from_bits(0x40), None);
}

#[test]
fn writev_progress() {
    assert_eq!(writev_step(0, 10, 10), WritevStep::Continue(10));
    assert_eq!(writev_step(10, 3, 10), WritevStep::Done(13));
    assert_eq!(writev_step(0, 0, 10), WritevStep::Done(-5));
    assert_eq!(writev_step(5, -9, 10), WritevStep::Done(5));
    assert_eq!(writev_step(0, -9, 10), WritevStep::Done(-9));
    assert_eq!(writev_check(0x1000, 0), Err(0));
    assert_eq!(writev_check(0, 2), Err(-14));
    assert_eq!(writev_check(0x1000, 1025), Err(-22));
    assert_eq!(writev_check(0x1000, 2), Ok(2));
}

#[test]
fn getcwd_needs_room_for_nul() {
    assert_eq!(getcwd_bytes(b"/home", 6), Ok(b"/home\0".to_vec()));
    assert_eq!(getcwd_bytes(b"/home", 5), Err(Errno::BadAdress));
}

#[test]
fn getdents_lays_entries_until_full() {
    let entries = vec![
        DirEntry { id: 7, name: b"bin".to_vec(), ftype: FileKindTag::Dir },
        DirEntry { id: 9, name: b"motd".to_vec(), ftype: FileKindTag::File },
        DirEntry { id: 11, name: b"x".to_vec(), ftype: FileKindTag::File },
    ];
    let mut out = vec![0xEEu8; 40];
    let (used, count) = fill_dirents(&mut out, &entries, 0);
    assert_eq!((used, count), (39, 2));
    assert_eq!(&out[0..8], &7u64.to_le_bytes());
    assert_eq!(out[8], 3);
    assert_eq!(&out[10..12], &3u16.to_le_bytes());
    assert_eq!(&out[16..19], b"bin");
    assert_eq!(&out[19..27], &9u64.to_le_bytes());
    assert_eq!(out[27], 2);
    assert_eq!(&out[35..39], b"motd");
    assert_eq!(out[39], 0xEE);
    let mut small = vec![0u8; 20];
    assert_eq!(fill_dirents(&mut small, &entries, 2), (17, 1));
    assert_eq!(fill_dirents(&mut small, &entries, 5), (0, 0));
}

#[test]
fn write_dirent_refuses_overflowing_entry() {
    let mut out = vec![0u8; 16];
    assert_eq!(DirentHeader::write_dirent(0, &mut out, 1, 2, b"a", 16), None);
    assert_eq!(DirentHeader::write_dirent(0, &mut out, 1, 2, b"", 16), Some(16));
}

fn iti() -> InitialTaskInfo {
    InitialTaskInfo { entry_rip: 0x40_0000, user_rsp: 0x7fff_0000, argc: 0, argv_ptr: 0, kstack_top: 0xFFFF_FFFF_FE00_0000 }
}

fn two_tasks() -> (TaskManager, VecDeque<u64>) {
    let mut tm = TaskManager::new();
    let mut rq = VecDeque::new();
    spawn_task(&mut tm, &mut rq, 1, 10, &iti(), 0x23, 0x1b);
    spawn_task(&mut tm, &mut rq, 2, 20, &iti(), 0x23, 0x1b);
    (tm, rq)
}

#[test]
fn blocking_marks_task_waiting() {
    let (mut tm, _rq) = two_tasks();
    block_on_sleep(&mut tm, 1, 100, 25);
    assert_eq!(tm.tasks[&1].state, TaskState::Waiting);
    assert_eq!(tm.tasks[&1].wait, Some(WaitReason::SleepUntil(125)));
    assert_eq!(tm.tasks[&1].wake_tick, 125);
    block_on_io(&mut tm, 2);
    assert_eq!(tm.tasks[&2].wait, Some(WaitReason::IO));
    block_on_child(&mut tm, 2, 10);
    assert_eq!(tm.tasks[&2].wait, Some(WaitReason::ChildPid(10)));
    assert_eq!(ms_to_ticks(25), 25);
}

#[test]
fn exit_wakes_waiting_parent() {
    let (mut tm, mut rq) = two_tasks();
    rq.clear();
    for t in tm.tasks.values_mut() {
        t.queued = false;
    }
    block_on_child(&mut tm, 1, 20);
    set_tid_address(&mut tm, 2, 0x7000).unwrap();
    assert_eq!(mark_exited(&mut tm, 2, 3), 0x7000);
    assert_eq!(tm.tasks[&2].state, TaskState::Exited(3));
    assert_eq!(wake_waiting_parent(&mut tm, &mut rq, &[1], 20), Some(1));
    assert_eq!(tm.tasks[&1].state, TaskState::Ready);
    assert_eq!(rq, VecDeque::from(vec![1]));
    assert_eq!(find_exited(&tm, &[20]), Some(3));
    assert_eq!(find_exited(&tm, &[10]), None);
    assert_eq!(wake_waiting_parent(&mut tm, &mut rq, &[1], 20), None);
}

#[test]
fn arch_prctl_sets_and_reads_bases() {
    let (mut tm, _rq) = two_tasks();
    assert_eq!(arch_prctl_apply(&mut tm, 1, ARCH_SET_FS, 0x5000), Ok(ArchAction::WriteFsBase(0x5000)));
    assert_eq!(tm.tasks[&1].user_fs_base, 0x5000);
    assert_eq!(arch_prctl_apply(&mut tm, 1, ARCH_GET_FS, 0x6000), Ok(ArchAction::Store { addr: 0x6000, value: 0x5000 }));
    assert_eq!(arch_prctl_apply(&mut tm, 1, ARCH_GET_FS, 0), Err(Errno::InvalidArgument));
    assert_eq!(arch_prctl_apply(&mut tm, 1, ARCH_SET_GS, 0x9000), Ok(ArchAction::WriteGsBase(0x9000)));
    assert_eq!(arch_prctl_apply(&mut tm, 1, 0x2000, 0), Err(Errno::InvalidArgument));
    assert_eq!(set_tid_address(&mut tm, 1, 0), Err(Errno::InvalidArgument));
}

#[test]
fn current_process_ids() {
    let (mut tm, _rq) = two_tasks();
    assert_eq!(get_pid(&tm), Err(Errno::NoSuchProcess));
    assert_eq!(current_pid(&tm), None);
    tm.set_current_tid(2);
    assert_eq!(get_pid(&tm), Ok(20));
    assert_eq!(current_pid(&tm), Some(20));
}

#[test]
fn dispatch_ends_process_on_unknown_call_or_exit() {
    assert_eq!(dispatch_step(&regs(9999, 0, 0, 0)), DispatchStep::ExitProcess { code: 1 });
    assert_eq!(dispatch_step(&regs(60, 3, 0, 0)), DispatchStep::ExitProcess { code: 3 });
    assert_eq!(dispatch_step(&regs(231, 7, 0, 0)), DispatchStep::ExitProcess { code: 7 });
    assert_eq!(
        dispatch_step(&regs(0, 4, 0x1000, 16)),
        DispatchStep::Run(Syscall::Read { fd: 4, ptr: 0x1000, len: 16 })
    );
}

#[test]
fn handler_answer_goes_to_rax() {
    let mut r = regs(0, 4, 0x1000, 16);
    complete_call(&mut r, Syscall::Read { fd: 4, ptr: 0x1000, len: 16 }, -9);
    assert_eq!(r.rax, (-9i64) as u64);
    assert_eq!(r.rdi, 4);
    complete_call(&mut r, Syscall::Ps, 5);
    assert_eq!(r.rax, 0);
    complete_call(&mut r, Syscall::GetPid, 12);
    assert_eq!(r.rax, 12);
}
