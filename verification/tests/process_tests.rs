use ros::console::tty::read_tty_input;
use ros::fs::file_descriptor::{FileKind, OpenFile};
use ros::fs::ramfs::Ramfs;
use ros::fs::vfs::{ProcSources, Vfs};
use ros::proc::process::{new_process, UserSigAction};
use ros::shared::{align_up, align_up_2mb, MemoryRegion, MemoryRegionKind, PhysicalAllocator};
use ros::sys::errors::{Errno, FsError};
use ros::sys::FileOpenFlags;
use ros::syscall::file_ops::{open_path, ReadStep, WriteStep};
use ros::syscall::syscall_dispatch::Strace;
use ros::syscall::syscall_impl::BrkPlan;
use ros::utils::ringbuffer::SpscRing;

fn vfs() -> Vfs {
    let mut ramfs = Ramfs::new();
    ramfs.mkdir_p(b"/etc").unwrap();
    ramfs.create_file(b"/etc/motd").unwrap();
    ramfs.write_file_from_path(b"/etc/motd", b"hello\n").unwrap();
    let sources = ProcSources { pids: vec![1], procs: vec![(1, b"init".to_vec())], free: 0, total: 0, ticks: 5 };
    Vfs::new(ramfs, sources, SpscRing::<Strace, 2048>::new())
}

fn act(h: u64) -> UserSigAction {
    UserSigAction { handler: h, flags: 4, restorer: 0, mask: 0 }
}

#[test]
fn new_process_starts_with_terminal_and_heap() {
    let v = vfs();
    let p = new_process(7, b"/bin/sh", Some(1), v.root_vnode(), 9, 0x40_1234, 0x7FFF_F000);
    assert_eq!(p.pid, 7);
    assert_eq!(p.cmd, b"sh".to_vec());
    assert_eq!(p.parent_pid, Some(1));
    assert_eq!(p.tasks, vec![9]);
    assert_eq!(p.fds.len(), 3);
    let f0 = p.fds[0].as_ref().unwrap();
    assert_eq!(f0.kind, FileKind::Tty);
    assert_eq!(f0.flags.bits, FileOpenFlags::READ);
    assert_eq!(p.fds[2].as_ref().unwrap().flags.bits, FileOpenFlags::WRITE);
    assert_eq!(p.brk_start, 0x40_3000);
    assert_eq!(p.brk, 0x40_3000);
    assert_eq!(p.mmap_top, 0x7EFF_F000);
    assert_eq!(p.brk_max, 0x40_3000 + 0x800_0000);
    assert_eq!(p.umask, 0o022);
    assert_eq!(p.sigmask, 0);
    assert_eq!(p.sigactions.len(), 64);
    assert!(p.mmaps.is_empty());
    assert_eq!(p.ticks_run, 0);
}

#[test]
fn read_guards_come_first() {
    let mut v = vfs();
    let mut p = new_process(1, b"/bin/init", None, v.root_vnode(), 1, 0x40_0000, 0x7FFF_F000);
    assert!(matches!(p.read_fd(&mut v, 0, 0, 10), ReadStep::Fail(Errno::BadAdress)));
    assert!(matches!(p.read_fd(&mut v, 0, 0x1000, 0), ReadStep::Bytes(ref b) if b.is_empty()));
    assert!(matches!(p.read_fd(&mut v, 9, 0x1000, 10), ReadStep::Fail(Errno::BadFileDescriptor)));
    assert!(matches!(p.read_fd(&mut v, 1, 0x1000, 10), ReadStep::Fail(Errno::OperationNotPermitted)));
    assert!(matches!(p.read_fd(&mut v, 0, 0x1000, 10), ReadStep::FromTty));
}

#[test]
fn open_read_write_close_through_the_process() {
    let mut v = vfs();
    let root = v.root_vnode();
    let mut p = new_process(1, b"/bin/init", None, root, 1, 0x40_0000, 0x7FFF_F000);
    let of = open_path(&mut v, root, b"/etc/motd", FileOpenFlags { bits: FileOpenFlags::READ | FileOpenFlags::WRITE }).unwrap();
    let fd = p.alloc_fd(of);
    assert_eq!(fd, 3);
    match p.read_fd(&mut v, 3, 0x1000, 3) {
        ReadStep::Bytes(b) => assert_eq!(b, b"hel".to_vec()),
        other => panic!("{:?}", other),
    }
    assert_eq!(p.fds[3].as_ref().unwrap().offset, 3);
    assert_eq!(p.write_fd(&mut v, 3, 0, b"x"), WriteStep::Fail(Errno::BadAdress));
    assert_eq!(p.write_fd(&mut v, 3, 0x1000, b""), WriteStep::Wrote(0));
    assert_eq!(p.write_fd(&mut v, 8, 0x1000, b"x"), WriteStep::Fail(Errno::BadFileDescriptor));
    assert_eq!(p.write_fd(&mut v, 1, 0x1000, b"x"), WriteStep::ToTty);
    assert_eq!(p.write_fd(&mut v, 3, 0x1000, b"LP"), WriteStep::Wrote(2));
    assert_eq!(p.close(3), 0);
    assert_eq!(p.close(3), -9);
    assert_eq!(p.close(1), -22);
    assert_eq!(p.close(40), -75);
}

#[test]
fn open_refuses_text_that_is_not_utf8() {
    let mut v = vfs();
    let root = v.root_vnode();
    let r = open_path(&mut v, root, &[0x2F, 0xFF, 0x61], FileOpenFlags { bits: FileOpenFlags::READ });
    assert_eq!(r.err(), Some(Errno::InvalidArgument));
    let r = open_path(&mut v, root, "/etc/é".as_bytes(), FileOpenFlags { bits: FileOpenFlags::READ });
    assert_eq!(r.err(), Some(Errno::IoError));
}

#[test]
fn sigprocmask_checks_size_queries_and_protects_kill_and_stop() {
    let v = vfs();
    let mut p = new_process(1, b"/bin/init", None, v.root_vnode(), 1, 0x40_0000, 0x7FFF_F000);
    assert_eq!(p.rt_sigprocmask(0, Some(0xFF), 4), (None, -22));
    assert_eq!(p.sigmask, 0);
    assert_eq!(p.rt_sigprocmask(0, Some(1 << 8 | 1 << 18 | 1), 8), (Some(0), 0));
    assert_eq!(p.sigmask, 1);
    assert_eq!(p.rt_sigprocmask(0, None, 8), (Some(1), 0));
    assert_eq!(p.rt_sigprocmask(7, Some(2), 8), (Some(1), -22));
    assert_eq!(p.sigmask, 1);
    assert_eq!(p.rt_sigprocmask(2, Some(6), 8), (Some(1), 0));
    assert_eq!(p.sigmask, 6);
}

#[test]
fn sigaction_installs_and_reads_back() {
    let v = vfs();
    let mut p = new_process(1, b"/bin/init", None, v.root_vnode(), 1, 0x40_0000, 0x7FFF_F000);
    assert_eq!(p.sigaction(2, Some(act(0x1000)), false, 8), Ok(None));
    assert_eq!(p.sigactions[1], act(0x1000));
    // the old action is read at index signum, one past where it was stored
    assert_eq!(p.sigaction(1, None, true, 8), Ok(Some(act(0x1000))));
    assert_eq!(p.sigaction(9, Some(act(1)), false, 8), Err(Errno::InvalidArgument));
    assert_eq!(p.sigaction(9, None, true, 8), Ok(Some(UserSigAction { handler: 0, flags: 0, restorer: 0, mask: 0 })));
    // querying the installed signal itself gives the slot above, still the default
    assert_eq!(p.sigaction(2, None, true, 8), Ok(Some(UserSigAction { handler: 0, flags: 0, restorer: 0, mask: 0 })));
    assert_eq!(p.sigaction(2, None, false, 4), Err(Errno::InvalidArgument));
    assert_eq!(p.sigaction(64, None, false, 8), Err(Errno::InvalidArgument));
}

#[test]
fn brk_mmap_umask_and_ticks_update_the_record() {
    let v = vfs();
    let mut p = new_process(1, b"/bin/init", None, v.root_vnode(), 1, 0x40_0000, 0x7FFF_F000);
    let start = p.brk;
    let plan = p.brk_request(start + 0x1800);
    assert_eq!(plan, BrkPlan::Grow { map_from: start, map_to: start + 0x2000, new: start + 0x1800 });
    assert_eq!(p.finish_brk(plan, false), start);
    assert_eq!(p.finish_brk(plan, true), start + 0x1800);
    assert_eq!(p.brk, start + 0x1800);
    assert_eq!(p.brk_request(0), BrkPlan::Keep);
    p.record_mmap(0x7E00_0000, 0x2000, 3, 0x22);
    assert_eq!(p.mmap_top, 0x7E00_0000);
    assert_eq!(p.mmaps.len(), 1);
    assert_eq!(p.mmaps[0].len, 0x2000);
    assert_eq!(p.set_umask(0o7777), 0o022);
    assert_eq!(p.umask, 0o777);
    p.charge_tick();
    p.charge_tick();
    assert_eq!(p.ticks_run, 2);
}

#[test]
fn terminal_input_is_read_oldest_first() {
    let mut q: SpscRing<u8, 1024> = SpscRing::new();
    for b in b"abc" {
        q.push(*b).unwrap();
    }
    assert_eq!(read_tty_input(&mut q, 2), b"ab".to_vec());
    assert_eq!(read_tty_input(&mut q, 5), b"c".to_vec());
    assert!(read_tty_input(&mut q, 5).is_empty());
}

#[test]
fn create_file_at_root_is_an_invalid_path() {
    let mut fs = Ramfs::new();
    assert_eq!(fs.create_file(b"/"), Err(FsError::InvalidPath));
}

#[test]
fn rounding_up_works_to_the_last_page() {
    assert_eq!(align_up(u64::MAX - 4095), u64::MAX - 4095);
    assert_eq!(align_up(0x1001), 0x2000);
    assert_eq!(align_up_2mb(0x20_0001), 0x40_0000);
    let regions: &'static [MemoryRegion] =
        Box::leak(vec![MemoryRegion { start: 0x10_0000, end: 0x20_0000, kind: MemoryRegionKind::Usable }].into_boxed_slice());
    let a = PhysicalAllocator::restore_from(regions, 0, 0x10_0001);
    assert_eq!(a.next, 0x10_1000);
    let _ = OpenFile { kind: FileKind::Tty, offset: 0, flags: FileOpenFlags { bits: 1 }, cache: None };
}
