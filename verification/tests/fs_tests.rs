use ros::fs::file_descriptor::{FileKind, OpenFile};
use ros::fs::procfs::{cmd_mem, decode, fixed_id, pid_dir_id, uptime_ms, FixedFile, ProcNode, Procfs};
use ros::fs::ramfs::{split_path, Ramfs};
use ros::fs::vfs::{ProcSources, Vfs, VfsNode};
use ros::sys::errors::FsError;
use ros::sys::syscall::FileKindTag;
use ros::sys::FileOpenFlags;
use ros::syscall::syscall_dispatch::Strace;
use ros::utils::ringbuffer::SpscRing;

fn names(entries: &[ros::fs::DirEntry]) -> Vec<Vec<u8>> {
    entries.iter().map(|e| e.name.clone()).collect()
}

#[test]
fn ramfs_starts_with_root_only() {
    let fs = Ramfs::new();
    assert_eq!(fs.root(), 0);
    assert_eq!(fs.node_type(0), Ok(FileKindTag::Dir));
    assert_eq!(fs.parent(0), Ok(None));
    assert_eq!(fs.readdir(0).unwrap().len(), 0);
    assert_eq!(fs.node_type(1), Err(FsError::NotFound));
}

#[test]
fn mkdir_p_then_lookup_dir() {
    let mut fs = Ramfs::new();
    assert_eq!(fs.mkdir_p(b"/usr/share/hwdata"), Ok(()));
    let id = fs.lookup_dir(b"/usr/share/hwdata").unwrap();
    assert_eq!(fs.path_of(id), b"/usr/share/hwdata".to_vec());
    assert_eq!(fs.lookup_dir(b"/usr/share/../share/hwdata/."), Ok(id));
}

#[test]
fn mkdir_p_is_idempotent() {
    let mut fs = Ramfs::new();
    fs.mkdir_p(b"/a/b").unwrap();
    let id = fs.lookup_dir(b"/a/b").unwrap();
    assert_eq!(fs.mkdir_p(b"/a/b"), Ok(()));
    assert_eq!(fs.lookup_dir(b"/a/b"), Ok(id));
    assert_eq!(fs.readdir(0).unwrap().len(), 1);
}

#[test]
fn mkdir_p_needs_absolute_path() {
    let mut fs = Ramfs::new();
    assert_eq!(fs.mkdir_p(b"a/b"), Err(FsError::InvalidPath));
}

#[test]
fn create_then_lookup_finds_empty_file() {
    let mut fs = Ramfs::new();
    fs.mkdir_p(b"/etc").unwrap();
    assert_eq!(fs.create_file(b"/etc/motd"), Ok(()));
    let id = fs.lookup_file(b"/etc/motd").unwrap();
    assert_eq!(fs.read(id), Ok(Vec::new()));
    assert_eq!(fs.len(id), Ok(0));
    assert_eq!(fs.node_type(id), Ok(FileKindTag::File));
}

#[test]
fn create_existing_is_refused() {
    let mut fs = Ramfs::new();
    fs.mkdir_p(b"/etc").unwrap();
    fs.create_file(b"/etc/motd").unwrap();
    assert_eq!(fs.create_file(b"/etc/motd"), Err(FsError::AlreadyExistsFile));
    assert_eq!(fs.create_file(b"/etc"), Err(FsError::AlreadyExistsDir));
    assert_eq!(fs.create_file(b"/"), Err(FsError::InvalidPath));
    assert_eq!(fs.create_file(b"/nowhere/file"), Err(FsError::NotFound));
}

#[test]
fn read_after_write_gives_the_bytes() {
    let mut fs = Ramfs::new();
    fs.create_file(b"/f").unwrap();
    fs.write_file_from_path(b"/f", b"hello").unwrap();
    let id = fs.lookup_file(b"/f").unwrap();
    assert_eq!(fs.read(id), Ok(b"hello".to_vec()));
    assert_eq!(fs.write_trunc(id, b"hi"), Ok(2));
    assert_eq!(fs.read(id), Ok(b"hi".to_vec()));
}

#[test]
fn write_at_fills_gap_with_zeros() {
    let mut fs = Ramfs::new();
    fs.create_file(b"/f").unwrap();
    let id = fs.lookup_file(b"/f").unwrap();
    fs.write_trunc(id, b"ab").unwrap();
    assert_eq!(fs.write_at(id, 4, b"xy"), Ok(2));
    assert_eq!(fs.read(id), Ok(vec![b'a', b'b', 0, 0, b'x', b'y']));
    assert_eq!(fs.write_at(id, 1, b"Z"), Ok(1));
    assert_eq!(fs.read(id), Ok(vec![b'a', b'Z', 0, 0, b'x', b'y']));
    fs.append(id, b"!").unwrap();
    assert_eq!(fs.len(id), Ok(7));
}

#[test]
fn file_operations_on_directory_fail() {
    let mut fs = Ramfs::new();
    fs.mkdir_p(b"/d").unwrap();
    let d = fs.lookup_dir(b"/d").unwrap();
    assert_eq!(fs.read(d), Err(FsError::IsADirectory));
    assert_eq!(fs.lookup_file(b"/d"), Err(FsError::IsADirectory));
    assert_eq!(fs.write_file_from_path(b"/d", b"x"), Err(FsError::IsADirectory));
    fs.create_file(b"/d/f").unwrap();
    assert_eq!(fs.lookup_dir(b"/d/f"), Err(FsError::NotADirectory));
    assert_eq!(fs.mkdir_p(b"/d/f/g"), Err(FsError::AlreadyExistsFile));
}

#[test]
fn readdir_lists_names_sorted() {
    let mut fs = Ramfs::new();
    fs.create_file(b"/zeta").unwrap();
    fs.mkdir_p(b"/alpha").unwrap();
    fs.create_file(b"/mid").unwrap();
    let entries = fs.readdir(0).unwrap();
    assert_eq!(names(&entries), vec![b"alpha".to_vec(), b"mid".to_vec(), b"zeta".to_vec()]);
    assert_eq!(entries[0].ftype, FileKindTag::Dir);
    assert_eq!(entries[1].ftype, FileKindTag::File);
}

#[test]
fn lookup_from_relative_path() {
    let mut fs = Ramfs::new();
    fs.mkdir_p(b"/home/user").unwrap();
    fs.create_file(b"/home/user/notes").unwrap();
    let home = fs.lookup_dir(b"/home").unwrap();
    let notes = fs.lookup_file(b"/home/user/notes").unwrap();
    assert_eq!(fs.lookup_from(home, b"user/notes"), Ok(notes));
    assert_eq!(fs.lookup_from(home, b"user/missing"), Err(FsError::NotFound));
}

#[test]
fn path_of_root_is_slash() {
    let fs = Ramfs::new();
    assert_eq!(fs.path_of(0), b"/".to_vec());
}

#[test]
fn kernel_files_are_made() {
    let mut fs = Ramfs::new();
    assert_eq!(fs.create_kernel_files(), Ok(()));
    assert!(fs.lookup_file(b"/var/log/messages").is_ok());
}

#[test]
fn split_path_drops_empty_components() {
    assert_eq!(split_path(b"//a//b/"), vec![b"a".to_vec(), b"b".to_vec()]);
    assert_eq!(split_path(b"/"), Vec::<Vec<u8>>::new());
}

fn octal(out: &mut [u8], value: u64, width: usize) {
    let s = format!("{:0w$o}", value, w = width - 1);
    out[..width - 1].copy_from_slice(s.as_bytes());
    out[width - 1] = 0;
}

fn tar_member(name: &str, data: &[u8]) -> Vec<u8> {
    let mut h = [0u8; 512];
    h[..name.len()].copy_from_slice(name.as_bytes());
    octal(&mut h[100..108], 0o644, 8);
    octal(&mut h[108..116], 0, 8);
    octal(&mut h[116..124], 0, 8);
    octal(&mut h[124..136], data.len() as u64, 12);
    octal(&mut h[136..148], 0, 12);
    h[156] = b'0';
    h[257..263].copy_from_slice(b"ustar\0");
    h[263..265].copy_from_slice(b"00");
    for b in h[148..156].iter_mut() {
        *b = b' ';
    }
    let sum: u64 = h.iter().map(|&b| b as u64).sum();
    let s = format!("{:06o}", sum);
    h[148..154].copy_from_slice(s.as_bytes());
    h[154] = 0;
    h[155] = b' ';
    let mut out = h.to_vec();
    out.extend_from_slice(data);
    while out.len() % 512 != 0 {
        out.push(0);
    }
    out
}

fn tar_archive(members: &[(&str, &[u8])]) -> Vec<u8> {
    let mut out = Vec::new();
    for (n, d) in members {
        out.extend(tar_member(n, d));
    }
    out.extend(vec![0u8; 1024]);
    out
}

#[test]
fn initrd_archive_is_loaded() {
    let archive = tar_archive(&[("initrfs/bin/init", b"\x7fELF"), ("initrfs/etc/motd", b"welcome\n")]);
    let mut fs = Ramfs::new();
    assert_eq!(fs.try_load_initrd(&archive), Some(Ok(())));
    let init = fs.lookup_file(b"/bin/init").unwrap();
    assert_eq!(fs.read(init), Ok(b"\x7fELF".to_vec()));
    let motd = fs.lookup_file(b"/etc/motd").unwrap();
    assert_eq!(fs.read(motd), Ok(b"welcome\n".to_vec()));
}

#[test]
fn initrd_load_direct() {
    let archive = tar_archive(&[("root/a.txt", b"A")]);
    let mut fs = Ramfs::new();
    assert_eq!(fs.load_initrd(&archive), Ok(()));
    let id = fs.lookup_file(b"/a.txt").unwrap();
    assert_eq!(fs.read(id), Ok(b"A".to_vec()));
}

#[test]
fn initrd_refuses_corrupt_archive() {
    let mut fs = Ramfs::new();
    assert_eq!(fs.try_load_initrd(&[1u8, 2, 3]), None);
    assert_eq!(fs.readdir(0).unwrap().len(), 0);
}

#[test]
fn initrd_member_without_slash_is_not_loaded() {
    let archive = tar_archive(&[("plainname", b"x")]);
    let mut fs = Ramfs::new();
    assert_eq!(fs.try_load_initrd(&archive), None);
}

#[test]
fn initrd_files_report_existing_file() {
    let mut fs = Ramfs::new();
    let files = vec![(Some(b"r/x".to_vec()), b"1".to_vec()), (Some(b"r/x".to_vec()), b"2".to_vec())];
    assert_eq!(fs.load_initrd_files(&files), Err(FsError::AlreadyExistsFile));
    let id = fs.lookup_file(b"/x").unwrap();
    assert_eq!(fs.read(id), Ok(b"1".to_vec()));
}

#[test]
fn procfs_ids_decode() {
    assert_eq!(decode(0), Some(ProcNode::Root));
    assert_eq!(decode(fixed_id(FixedFile::Uptime)), Some(ProcNode::Fixed(FixedFile::Uptime)));
    assert_eq!(decode(pid_dir_id(42)), Some(ProcNode::PidDir(42)));
    assert_eq!(decode(0x1000_0000_0000_0009), None);
    assert_eq!(decode(0x3000_0000_0000_0000), None);
}

#[test]
fn procfs_lists_fixed_files_then_pids() {
    let p = Procfs::new();
    let entries = p.readdir(p.root(), &[1, 7]).unwrap();
    assert_eq!(
        names(&entries),
        vec![b"meminfo".to_vec(), b"uptime".to_vec(), b"strace".to_vec(), b"1".to_vec(), b"7".to_vec()]
    );
    assert_eq!(entries[3].id, pid_dir_id(1));
    assert_eq!(entries[3].ftype, FileKindTag::Dir);
    assert_eq!(p.lookup(p.root(), b"uptime"), Ok(fixed_id(FixedFile::Uptime)));
    assert_eq!(p.lookup(p.root(), b"7"), Err(FsError::NotFound));
    assert_eq!(p.lookup(pid_dir_id(7), b"anything"), Ok(pid_dir_id(7)));
    assert_eq!(p.lookup(fixed_id(FixedFile::Uptime), b"x"), Err(FsError::NotADirectory));
    assert_eq!(p.name(pid_dir_id(12)), Ok(b"12".to_vec()));
}

#[test]
fn procfs_is_read_only() {
    let mut p = Procfs::new();
    assert_eq!(p.create(0, b"x"), Err(FsError::PermissionDenied));
    assert_eq!(p.mkdir(0, b"x"), Err(FsError::PermissionDenied));
    assert_eq!(p.write_at(fixed_id(FixedFile::Uptime), 0, b"x"), Err(FsError::PermissionDenied));
}

#[test]
fn uptime_text_in_seconds() {
    assert_eq!(uptime_ms(0), b"0\n".to_vec());
    assert_eq!(uptime_ms(12345), b"12345\n".to_vec());
}

#[test]
fn meminfo_report_layout() {
    let text = cmd_mem(1024, 4 * 1024 * 1024);
    let expected = "Memory\n  total:      4 MiB\n  used :      3 MiB\n  free :      1 KiB\n";
    assert_eq!(String::from_utf8(text).unwrap(), expected);
}

fn sample_vfs() -> Vfs {
    let mut ramfs = Ramfs::new();
    ramfs.mkdir_p(b"/home").unwrap();
    let sources = ProcSources { pids: vec![1, 2], procs: vec![(1, b"init".to_vec()), (2, b"sh".to_vec())], free: 0, total: 0, ticks: 3000 };
    Vfs::new(ramfs, sources, SpscRing::<Strace, 2048>::new())
}

#[test]
fn vfs_resolves_into_proc_mount() {
    let vfs = sample_vfs();
    let root = vfs.root_vnode();
    let proc_root = vfs.resolve(root, b"/proc").unwrap();
    assert_eq!(proc_root.mount, 1);
    let entries = vfs.readdir_path(root, b"/proc").unwrap();
    assert_eq!(entries.len(), 5);
    assert_eq!(vfs.resolve(root, b"/proc/1"), Err(FsError::NotFound));
    let pid1 = VfsNode { mount: proc_root.mount, node: pid_dir_id(1) };
    assert_eq!(vfs.node_type(pid1), Ok(FileKindTag::Dir));
    assert_eq!(vfs.vnode_to_path(pid1), Ok(b"/proc/1".to_vec()));
    assert_eq!(vfs.resolve(pid1, b".."), Ok(proc_root));
    assert_eq!(vfs.resolve(proc_root, b".."), Ok(root));
    assert_eq!(vfs.vnode_to_path(root), Ok(b"/".to_vec()));
}

#[test]
fn vfs_create_write_read() {
    let mut vfs = sample_vfs();
    let root = vfs.root_vnode();
    let home = vfs.resolve(root, b"/home").unwrap();
    let f = vfs.create_path(home, b"notes").unwrap();
    assert_eq!(vfs.write_at(f, 0, b"abc"), Ok(3));
    assert_eq!(vfs.file_len(f), Ok(3));
    assert_eq!(vfs.read_all(f), Ok(b"abc".to_vec()));
    assert_eq!(vfs.vnode_to_path(f), Ok(b"/home/notes".to_vec()));
    assert_eq!(vfs.create_path(root, b"/home/notes"), Err(FsError::AlreadyExistsFile));
    let d = vfs.mkdir_path(root, b"/home/sub").unwrap();
    assert_eq!(vfs.node_type(d), Ok(FileKindTag::Dir));
    assert_eq!(vfs.resolve_parent(root, b"/home/x").map(|(n, leaf)| (n, leaf)), Ok((home, b"x".to_vec())));
    assert_eq!(vfs.resolve_parent(root, b"/"), Err(FsError::InvalidPath));
}

#[test]
fn vfs_read_at_uses_offset() {
    let mut vfs = sample_vfs();
    let root = vfs.root_vnode();
    let f = vfs.create_path(root, b"/data").unwrap();
    vfs.write_at(f, 0, b"0123456789").unwrap();
    let mut of = OpenFile { kind: FileKind::File { node: f }, offset: 4, flags: FileOpenFlags { bits: 0 }, cache: None };
    assert_eq!(vfs.read_at(f, &mut of, 3), Ok(b"456".to_vec()));
    of.offset = 8;
    assert_eq!(vfs.read_at(f, &mut of, 10), Ok(b"89".to_vec()));
    of.offset = 20;
    assert_eq!(vfs.read_at(f, &mut of, 10), Ok(Vec::new()));
}

#[test]
fn vfs_proc_files_read() {
    let mut vfs = sample_vfs();
    let root = vfs.root_vnode();
    let up = vfs.resolve(root, b"/proc/uptime").unwrap();
    assert_eq!(vfs.read_all(up), Ok(b"3000\n".to_vec()));
    assert_eq!(vfs.create_path(root, b"/proc/new"), Err(FsError::PermissionDenied));
    assert_eq!(vfs.resolve(root, b"/proc/uptime/x"), Err(FsError::NotADirectory));
}

#[test]
fn path_of_leads_back_to_node() {
    let mut fs = Ramfs::new();
    fs.mkdir_p(b"/a/bb/ccc").unwrap();
    fs.create_file(b"/a/bb/ccc/file.txt").unwrap();
    for path in [&b"/a"[..], b"/a/bb", b"/a/bb/ccc", b"/a/bb/ccc/file.txt"] {
        let id = fs.lookup_abs(path).unwrap();
        assert_eq!(fs.path_of(id), path.to_vec());
        assert_eq!(fs.lookup_abs(&fs.path_of(id)), Ok(id));
    }
}
