use ros::fs::file_descriptor::{FileKind, OpenFile};
use ros::fs::ramfs::Ramfs;
use ros::fs::vfs::{ProcSources, Vfs};
use ros::sys::errors::Errno;
use ros::sys::FileOpenFlags;
use ros::syscall::file_ops::{chdir_target, open_path, read_open_file, write_open_file, ReadStep, WriteStep};
use ros::syscall::syscall_dispatch::{trace_call, Strace};
use ros::utils::ringbuffer::SpscRing;

fn vfs() -> Vfs {
    let mut ramfs = Ramfs::new();
    ramfs.mkdir_p(b"/home/user").unwrap();
    ramfs.create_file(b"/home/user/todo").unwrap();
    ramfs.write_file_from_path(b"/home/user/todo", b"milk\neggs\n").unwrap();
    let sources = ProcSources { pids: vec![1], procs: vec![(1, b"init".to_vec())], free: 0, total: 0, ticks: 5 };
    Vfs::new(ramfs, sources, SpscRing::<Strace, 2048>::new())
}

fn flags(bits: u64) -> FileOpenFlags {
    FileOpenFlags { bits }
}

#[test]
fn open_existing_and_read_in_pieces() {
    let mut v = vfs();
    let root = v.root_vnode();
    let mut of = open_path(&mut v, root, b"/home/user/todo", flags(FileOpenFlags::READ)).unwrap();
    assert!(matches!(of.kind, FileKind::File { .. }));
    assert_eq!(of.offset, 0);
    match read_open_file(&mut v, &mut of, 5) {
        ReadStep::Bytes(b) => assert_eq!(b, b"milk\n".to_vec()),
        other => panic!("{:?}", other),
    }
    assert_eq!(of.offset, 5);
    match read_open_file(&mut v, &mut of, 100) {
        ReadStep::Bytes(b) => assert_eq!(b, b"eggs\n".to_vec()),
        other => panic!("{:?}", other),
    }
    match read_open_file(&mut v, &mut of, 100) {
        ReadStep::Bytes(b) => assert!(b.is_empty()),
        other => panic!("{:?}", other),
    }
    assert_eq!(of.offset, 10);
}

#[test]
fn open_missing_without_create_fails() {
    let mut v = vfs();
    let root = v.root_vnode();
    assert_eq!(open_path(&mut v, root, b"/nope", flags(FileOpenFlags::READ)).err(), Some(Errno::IoError));
    assert_eq!(open_path(&mut v, root, b"", flags(FileOpenFlags::READ)).err(), Some(Errno::InvalidArgument));
}

#[test]
fn open_with_create_then_write_and_append() {
    let mut v = vfs();
    let root = v.root_vnode();
    let mut w = open_path(&mut v, root, b"/home/user/log", flags(FileOpenFlags::WRITE | FileOpenFlags::CREATE)).unwrap();
    assert_eq!(write_open_file(&mut v, &mut w, b"one"), WriteStep::Wrote(3));
    assert_eq!(w.offset, 3);
    let mut a = open_path(&mut v, root, b"/home/user/log", flags(FileOpenFlags::WRITE | FileOpenFlags::APPEND)).unwrap();
    assert_eq!(write_open_file(&mut v, &mut a, b"two"), WriteStep::Wrote(3));
    // an appending descriptor's offset moves from where it was, not from the end
    assert_eq!(a.offset, 3);
    let node = v.resolve(root, b"/home/user/log").unwrap();
    assert_eq!(v.read_all(node), Ok(b"onetwo".to_vec()));
    let mut t = open_path(&mut v, root, b"/home/user/log", flags(FileOpenFlags::WRITE | FileOpenFlags::TRUNCATE)).unwrap();
    assert_eq!(write_open_file(&mut v, &mut t, b"X"), WriteStep::Wrote(1));
    assert_eq!(v.read_all(node), Ok(b"Xnetwo".to_vec()));
}

#[test]
fn descriptor_flags_and_kinds_are_checked() {
    let mut v = vfs();
    let root = v.root_vnode();
    let mut ro = open_path(&mut v, root, b"/home/user/todo", flags(FileOpenFlags::READ)).unwrap();
    assert_eq!(write_open_file(&mut v, &mut ro, b"x"), WriteStep::Fail(Errno::OperationNotPermitted));
    let mut wo = open_path(&mut v, root, b"/home/user/todo", flags(FileOpenFlags::WRITE)).unwrap();
    assert!(matches!(read_open_file(&mut v, &mut wo, 1), ReadStep::Fail(Errno::OperationNotPermitted)));
    let mut d = open_path(&mut v, root, b"/home", flags(FileOpenFlags::READ)).unwrap();
    assert!(matches!(d.kind, FileKind::Dir { .. }));
    assert!(matches!(read_open_file(&mut v, &mut d, 1), ReadStep::Fail(Errno::IsADirectory)));
    assert_eq!(
        open_path(&mut v, root, b"/home", flags(FileOpenFlags::WRITE)).err(),
        Some(Errno::OperationNotPermitted)
    );
    let mut tty = OpenFile { kind: FileKind::Tty, offset: 0, flags: flags(FileOpenFlags::READ | FileOpenFlags::WRITE), cache: None };
    assert!(matches!(read_open_file(&mut v, &mut tty, 1), ReadStep::FromTty));
    assert_eq!(write_open_file(&mut v, &mut tty, b"hi"), WriteStep::ToTty);
}

#[test]
fn proc_files_read_but_not_written() {
    let mut v = vfs();
    let root = v.root_vnode();
    let mut up = open_path(&mut v, root, b"/proc/uptime", flags(FileOpenFlags::READ | FileOpenFlags::WRITE)).unwrap();
    match read_open_file(&mut v, &mut up, 64) {
        ReadStep::Bytes(b) => assert_eq!(b, b"5\n".to_vec()),
        other => panic!("{:?}", other),
    }
    assert_eq!(write_open_file(&mut v, &mut up, b"1"), WriteStep::Fail(Errno::IoError));
    assert_eq!(
        open_path(&mut v, root, b"/proc/new", flags(FileOpenFlags::WRITE | FileOpenFlags::CREATE)).err(),
        Some(Errno::IoError)
    );
}

#[test]
fn chdir_targets() {
    let v = vfs();
    let root = v.root_vnode();
    let home = chdir_target(&v, root, b"/home").unwrap();
    assert_eq!(chdir_target(&v, home, b"user"), v.resolve(root, b"/home/user").map_err(|_| Errno::NotFound));
    assert_eq!(chdir_target(&v, home, b""), Ok(home));
    assert_eq!(chdir_target(&v, home, b"user/todo"), Err(Errno::NotADirectory));
    assert_eq!(chdir_target(&v, home, b"nowhere"), Err(Errno::NotFound));
    assert_eq!(chdir_target(&v, home, b".."), Ok(root));
}

#[test]
fn trace_notes_calls_until_full() {
    let mut ring: SpscRing<Strace, 2> = SpscRing::new();
    trace_call(&mut ring, 1, 60);
    trace_call(&mut ring, 2, 0);
    trace_call(&mut ring, 3, 1);
    assert_eq!(ring.len(), 2);
    let first = ring.pop().unwrap();
    assert_eq!((first.pid, first.sysno), (1, 60));
    let second = ring.pop().unwrap();
    assert_eq!((second.pid, second.sysno), (2, 0));
}

#[test]
fn utf8_check_agrees_with_std() {
    let cases: Vec<Vec<u8>> = vec![
        b"/bin/init".to_vec(),
        "/home/\u{e9}t\u{e9}".as_bytes().to_vec(),
        "\u{20ac}\u{10348}\u{7ff}".as_bytes().to_vec(),
        vec![0xC0, 0x80],
        vec![0xE0, 0x80, 0x80],
        vec![0xED, 0xA0, 0x80],
        vec![0xF4, 0x90, 0x80, 0x80],
        vec![0xF0, 0x9F, 0x98],
        vec![0xFF],
        vec![0x61, 0xC3],
        Vec::new(),
    ];
    for c in cases {
        assert_eq!(ros::syscall::file_ops::is_utf8(&c), std::str::from_utf8(&c).is_ok(), "{:?}", c);
    }
}
