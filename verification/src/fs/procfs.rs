use vstd::prelude::*;
use crate::fs::DirEntry;
use crate::shared::{fmt_bytes, GIBI, KIBI, MIBI};
use crate::sys::errors::FsError;
use crate::sys::syscall::FileKindTag;
use crate::sys::wrappers::{spec_sysno_value, sysno_name, Sysno};
use crate::syscall::syscall_dispatch::Strace;
use crate::utils::ringbuffer::SpscRing;
use crate::utils::text::{decimal, pad_left, pad_right, push_all, push_padded_left, push_padded_right, u64_to_decimal};

verus! {

pub const TAG_SHIFT: u64 = 60;
pub const TAG_MASK: u64 = 0xF000_0000_0000_0000;
pub const TAG_ROOT: u64 = 0;
pub const TAG_FIXED_FILE: u64 = 0x1000_0000_0000_0000;
pub const TAG_PID_DIR: u64 = 0x2000_0000_0000_0000;
pub const TAG_PID_FILE: u64 = 0x3000_0000_0000_0000;

/// The files of the proc file system's root.
#[derive(Debug, Clone, Copy, PartialEq, Eq, Structural)]
pub enum FixedFile {
    MemInfo,
    Uptime,
    Strace,
}

pub open spec fn fixed_code(f: FixedFile) -> u64 {
    match f {
        FixedFile::MemInfo => 1,
        FixedFile::Uptime => 2,
        FixedFile::Strace => 3,
    }
}

/// A decoded proc node id.
#[derive(Debug, Clone, Copy, PartialEq, Eq, Structural)]
pub enum ProcNode {
    Root,
    Fixed(FixedFile),
    PidDir(u64),
}

/// The node id of a fixed file: its tag with its code below.
pub fn fixed_id(f: FixedFile) -> (r: u64)
    ensures
        r == TAG_FIXED_FILE | fixed_code(f),
{
    let code: u64 = match f {
        FixedFile::MemInfo => 1,
        FixedFile::Uptime => 2,
        FixedFile::Strace => 3,
    };
    TAG_FIXED_FILE | code
}

/// The node id of a process's directory: its tag with the pid below.
pub fn pid_dir_id(pid: u64) -> (r: u64)
    ensures
        r == TAG_PID_DIR | pid,
{
    TAG_PID_DIR | pid
}

/// What a node id names: 0 is the root, the top four bits give the kind and the
/// rest the fixed file or the pid.
pub open spec fn decode_spec(id: u64) -> Option<ProcNode> {
    if id == TAG_ROOT {
        Some(ProcNode::Root)
    } else if id & TAG_MASK == TAG_FIXED_FILE {
        let v = (id & !TAG_MASK) as u16;
        if v == 1 {
            Some(ProcNode::Fixed(FixedFile::MemInfo))
        } else if v == 2 {
            Some(ProcNode::Fixed(FixedFile::Uptime))
        } else if v == 3 {
            Some(ProcNode::Fixed(FixedFile::Strace))
        } else {
            None
        }
    } else if id & TAG_MASK == TAG_PID_DIR {
        Some(ProcNode::PidDir(id & !TAG_PID_DIR))
    } else {
        None
    }
}

pub fn decode(id: u64) -> (r: Option<ProcNode>)
    ensures
        r == decode_spec(id),
{
    if id == TAG_ROOT {
        return Some(ProcNode::Root);
    }
    let tag = id & TAG_MASK;
    if tag == TAG_FIXED_FILE {
        let v = (id & !TAG_MASK) as u16;
        if v == 1 {
            Some(ProcNode::Fixed(FixedFile::MemInfo))
        } else if v == 2 {
            Some(ProcNode::Fixed(FixedFile::Uptime))
        } else if v == 3 {
            Some(ProcNode::Fixed(FixedFile::Strace))
        } else {
            None
        }
    } else if tag == TAG_PID_DIR {
        Some(ProcNode::PidDir(id & !TAG_PID_DIR))
    } else {
        None
    }
}

pub open spec fn meminfo_name() -> Seq<u8> {
    seq![0x6Du8, 0x65u8, 0x6Du8, 0x69u8, 0x6Eu8, 0x66u8, 0x6Fu8]
}

pub open spec fn uptime_name() -> Seq<u8> {
    seq![0x75u8, 0x70u8, 0x74u8, 0x69u8, 0x6Du8, 0x65u8]
}

pub open spec fn strace_name() -> Seq<u8> {
    seq![0x73u8, 0x74u8, 0x72u8, 0x61u8, 0x63u8, 0x65u8]
}

pub open spec fn fixed_name(f: FixedFile) -> Seq<u8> {
    match f {
        FixedFile::MemInfo => meminfo_name(),
        FixedFile::Uptime => uptime_name(),
        FixedFile::Strace => strace_name(),
    }
}

fn fixed_name_bytes(f: FixedFile) -> (r: Vec<u8>)
    ensures
        r@ == fixed_name(f),
{
    let r = match f {
        FixedFile::MemInfo => vec![0x6Du8, 0x65u8, 0x6Du8, 0x69u8, 0x6Eu8, 0x66u8, 0x6Fu8],
        FixedFile::Uptime => vec![0x75u8, 0x70u8, 0x74u8, 0x69u8, 0x6Du8, 0x65u8],
        FixedFile::Strace => vec![0x73u8, 0x74u8, 0x72u8, 0x61u8, 0x63u8, 0x65u8],
    };
    assert(r@ =~= fixed_name(f));
    r
}

fn bytes_are(a: &[u8], b: &[u8]) -> (r: bool)
    ensures
        r == (a@ == b@),
{
    crate::fs::bytes_eq(a, b)
}

/// The entry `name` of directory `dir`: the root holds the fixed files, a process
/// directory maps any name to itself.
pub open spec fn lookup_child_spec(dir: u64, name: Seq<u8>) -> Result<u64, FsError> {
    match decode_spec(dir) {
        None => Err(FsError::NotFound),
        Some(ProcNode::Root) => if name == meminfo_name() {
            Ok(TAG_FIXED_FILE | 1)
        } else if name == uptime_name() {
            Ok(TAG_FIXED_FILE | 2)
        } else if name == strace_name() {
            Ok(TAG_FIXED_FILE | 3)
        } else {
            Err(FsError::NotFound)
        },
        Some(ProcNode::Fixed(_)) => Err(FsError::NotADirectory),
        Some(ProcNode::PidDir(pid)) => Ok(TAG_PID_DIR | pid),
    }
}

pub fn lookup_child(dir: u64, name: &[u8]) -> (r: Result<u64, FsError>)
    ensures
        r == lookup_child_spec(dir, name@),
{
    match decode(dir) {
        None => Err(FsError::NotFound),
        Some(ProcNode::Root) => {
            let m = fixed_name_bytes(FixedFile::MemInfo);
            let u = fixed_name_bytes(FixedFile::Uptime);
            let s = fixed_name_bytes(FixedFile::Strace);
            if bytes_are(name, m.as_slice()) {
                Ok(fixed_id(FixedFile::MemInfo))
            } else if bytes_are(name, u.as_slice()) {
                Ok(fixed_id(FixedFile::Uptime))
            } else if bytes_are(name, s.as_slice()) {
                Ok(fixed_id(FixedFile::Strace))
            } else {
                Err(FsError::NotFound)
            }
        },
        Some(ProcNode::Fixed(_)) => Err(FsError::NotADirectory),
        Some(ProcNode::PidDir(pid)) => Ok(pid_dir_id(pid)),
    }
}

/// The uptime in milliseconds, as decimal text and a newline.
pub open spec fn uptime_text(ticks: u64) -> Seq<u8> {
    let ms = if ticks * 1000 > u64::MAX { u64::MAX as int } else { ticks * 1000 };
    decimal((ms / 1000) as nat).push(0x0Au8)
}

/// The uptime in milliseconds, as decimal text and a newline (`ticks` timer ticks
/// at `HZ` ticks a second).
pub fn uptime_ms(ticks: u64) -> (r: Vec<u8>)
    ensures
        r@ == uptime_text(ticks),
{
    let hz: u64 = 1000;
    let ms = match ticks.checked_mul(1000) {
        Some(v) => v,
        None => u64::MAX,
    };
    let uptime = ms / hz;
    let mut out = u64_to_decimal(uptime);
    out.push(0x0Au8);
    out
}

/// The unit that `fmt_bytes` gives for a byte count.
pub open spec fn unit_text(bytes: u64) -> Seq<u8> {
    if bytes >= GIBI {
        seq![0x47u8, 0x69u8, 0x42u8]
    } else if bytes >= MIBI {
        seq![0x4Du8, 0x69u8, 0x42u8]
    } else if bytes >= KIBI {
        seq![0x4Bu8, 0x69u8, 0x42u8]
    } else {
        seq![0x42u8]
    }
}

/// A byte count scaled to its unit.
pub open spec fn scaled(bytes: u64) -> nat {
    if bytes >= GIBI {
        (bytes / GIBI) as nat
    } else if bytes >= MIBI {
        (bytes / MIBI) as nat
    } else if bytes >= KIBI {
        (bytes / KIBI) as nat
    } else {
        bytes as nat
    }
}

/// One line of the memory report: label, the scaled count right-aligned in six
/// columns, the unit.
pub open spec fn mem_line(label: Seq<u8>, bytes: u64) -> Seq<u8> {
    label + pad_left(decimal(scaled(bytes)), 6) + seq![0x20u8] + unit_text(bytes) + seq![0x0Au8]
}

pub open spec fn total_label() -> Seq<u8> {
    seq![0x20u8, 0x20u8, 0x74u8, 0x6Fu8, 0x74u8, 0x61u8, 0x6Cu8, 0x3Au8, 0x20u8]
}

pub open spec fn used_label() -> Seq<u8> {
    seq![0x20u8, 0x20u8, 0x75u8, 0x73u8, 0x65u8, 0x64u8, 0x20u8, 0x3Au8, 0x20u8]
}

pub open spec fn free_label() -> Seq<u8> {
    seq![0x20u8, 0x20u8, 0x66u8, 0x72u8, 0x65u8, 0x65u8, 0x20u8, 0x3Au8, 0x20u8]
}

pub open spec fn memory_heading() -> Seq<u8> {
    seq![0x4Du8, 0x65u8, 0x6Du8, 0x6Fu8, 0x72u8, 0x79u8, 0x0Au8]
}

/// The memory report: total, used (total less free, at least zero) and free.
pub open spec fn meminfo_text(free: u64, total: u64) -> Seq<u8> {
    let used = if total >= free { (total - free) as u64 } else { 0u64 };
    memory_heading() + mem_line(total_label(), total) + mem_line(used_label(), used) + mem_line(free_label(), free)
}

fn unit_bytes(bytes: u64) -> (r: Vec<u8>)
    ensures
        r@ == unit_text(bytes),
{
    let r = if bytes >= GIBI {
        vec![0x47u8, 0x69u8, 0x42u8]
    } else if bytes >= MIBI {
        vec![0x4Du8, 0x69u8, 0x42u8]
    } else if bytes >= KIBI {
        vec![0x4Bu8, 0x69u8, 0x42u8]
    } else {
        vec![0x42u8]
    };
    assert(r@ =~= unit_text(bytes));
    r
}

fn push_mem_line(out: &mut Vec<u8>, label: &[u8], bytes: u64)
    ensures
        final(out)@ == old(out)@ + mem_line(label@, bytes),
{
    let (v, _unit) = fmt_bytes(bytes);
    push_all(out, label);
    let digits = u64_to_decimal(v);
    push_padded_left(out, digits.as_slice(), 6);
    out.push(0x20u8);
    let u = unit_bytes(bytes);
    push_all(out, u.as_slice());
    out.push(0x0Au8);
    assert(out@ =~= old(out)@ + mem_line(label@, bytes));
}

/// The text of the memory report.
pub fn cmd_mem(free: u64, total: u64) -> (r: Vec<u8>)
    ensures
        r@ == meminfo_text(free, total),
{
    let used = total.saturating_sub(free);
    let mut out: Vec<u8> = vec![0x4Du8, 0x65u8, 0x6Du8, 0x6Fu8, 0x72u8, 0x79u8, 0x0Au8];
    let tl: Vec<u8> = vec![0x20u8, 0x20u8, 0x74u8, 0x6Fu8, 0x74u8, 0x61u8, 0x6Cu8, 0x3Au8, 0x20u8];
    let ul: Vec<u8> = vec![0x20u8, 0x20u8, 0x75u8, 0x73u8, 0x65u8, 0x64u8, 0x20u8, 0x3Au8, 0x20u8];
    let fl: Vec<u8> = vec![0x20u8, 0x20u8, 0x66u8, 0x72u8, 0x65u8, 0x65u8, 0x20u8, 0x3Au8, 0x20u8];
    assert(out@ =~= memory_heading());
    assert(tl@ =~= total_label() && ul@ =~= used_label() && fl@ =~= free_label());
    push_mem_line(&mut out, tl.as_slice(), total);
    push_mem_line(&mut out, ul.as_slice(), used);
    push_mem_line(&mut out, fl.as_slice(), free);
    assert(out@ =~= meminfo_text(free, total));
    out
}

pub open spec fn shell_name() -> Seq<u8> {
    seq![0x73u8, 0x68u8, 0x65u8, 0x6Cu8, 0x6Cu8]
}

pub open spec fn unknown_name() -> Seq<u8> {
    seq![0x23u8, 0x4Eu8, 0x41u8]
}

/// The command name of process `pid` among `procs` (the first entry for it), or
/// "#NA".
pub open spec fn proc_name(procs: Seq<(u64, Seq<u8>)>, pid: u64) -> Seq<u8>
    decreases procs.len(),
{
    if procs.len() == 0 {
        unknown_name()
    } else if procs[0].0 == pid {
        procs[0].1
    } else {
        proc_name(procs.drop_first(), pid)
    }
}

/// The name of a system call by number, or "#NA" for an unknown number.
pub open spec fn sysno_text(n: u64) -> Seq<u8> {
    if exists|s: Sysno| spec_sysno_value(s) == n {
        sysno_name(choose|s: Sysno| spec_sysno_value(s) == n)
    } else {
        unknown_name()
    }
}

/// The trace line of one call: pid, command and number left-aligned in six
/// columns, then the call's name.
pub open spec fn strace_line(e: Strace, pname: Seq<u8>) -> Seq<u8> {
    pad_right(decimal(e.pid as nat), 6) + seq![0x20u8] + pad_right(pname, 6) + seq![0x20u8] + pad_right(
        decimal(e.sysno as nat),
        6,
    ) + seq![0x20u8] + sysno_text(e.sysno) + seq![0x0Au8]
}

/// The trace of the calls `es`, oldest first, leaving out those of the shell.
pub open spec fn strace_text(es: Seq<Strace>, procs: Seq<(u64, Seq<u8>)>) -> Seq<u8>
    decreases es.len(),
{
    if es.len() == 0 {
        Seq::empty()
    } else {
        let e = es.last();
        let pname = proc_name(procs, e.pid);
        let before = strace_text(es.drop_last(), procs);
        if pname == shell_name() {
            before
        } else {
            before + strace_line(e, pname)
        }
    }
}

/// The plain view of a process table: (pid, command name) pairs.
pub open spec fn procs_view(procs: Seq<(u64, Vec<u8>)>) -> Seq<(u64, Seq<u8>)> {
    Seq::new(procs.len(), |i: int| (procs[i].0, procs[i].1@))
}

fn find_proc_name(procs: &[(u64, Vec<u8>)], pid: u64) -> (r: Vec<u8>)
    ensures
        r@ == proc_name(procs_view(procs@), pid),
{
    let ghost pv = procs_view(procs@);
    let mut i: usize = 0;
    assert(pv.skip(0) =~= pv);
    while i < procs.len()
        invariant
            i <= procs@.len(),
            pv == procs_view(procs@),
            proc_name(pv, pid) == proc_name(pv.skip(i as int), pid),
        decreases procs@.len() - i,
    {
        assert(pv.skip(i as int)[0] == pv[i as int]);
        assert(pv.skip(i as int).drop_first() =~= pv.skip(i + 1));
        if procs[i].0 == pid {
            return crate::fs::copy_bytes(procs[i].1.as_slice());
        }
        i = i + 1;
    }
    assert(pv.skip(i as int) =~= Seq::<(u64, Seq<u8>)>::empty());
    let r = vec![0x23u8, 0x4Eu8, 0x41u8];
    assert(r@ =~= unknown_name());
    r
}

fn sysno_text_bytes(n: u64) -> (r: Vec<u8>)
    ensures
        r@ == sysno_text(n),
{
    match Sysno::try_from_u64(n) {
        Some(s) => {
            proof {
                assert(exists|s: Sysno| spec_sysno_value(s) == n);
                let c = choose|c: Sysno| spec_sysno_value(c) == n;
                crate::sys::wrappers::lemma_sysno_value_injective(s, c);
            }
            s.name_bytes()
        },
        None => {
            let r = vec![0x23u8, 0x4Eu8, 0x41u8];
            assert(r@ =~= unknown_name());
            r
        },
    }
}

/// Drains the trace buffer into text: one line per traced call, oldest first,
/// leaving out the calls of the shell.
pub fn flush_strace<const N: usize>(ring: &mut SpscRing<Strace, N>, procs: &[(u64, Vec<u8>)]) -> (r: Vec<u8>)
    requires
        old(ring).wf(),
    ensures
        final(ring).wf(),
        final(ring)@.len() == 0,
        r@ == strace_text(old(ring)@, procs_view(procs@)),
{
    let ghost all = ring@;
    let mut out: Vec<u8> = Vec::new();
    let shell: Vec<u8> = vec![0x73u8, 0x68u8, 0x65u8, 0x6Cu8, 0x6Cu8];
    assert(shell@ =~= shell_name());
    while !ring.is_empty()
        invariant
            ring.wf(),
            shell@ == shell_name(),
            all == old(ring)@,
            all.len() >= ring@.len(),
            ring@ == all.skip(all.len() - ring@.len()),
            out@ == strace_text(all.take(all.len() - ring@.len()), procs_view(procs@)),
        decreases ring@.len(),
    {
        let ghost before = ring@;
        let ghost done = all.len() - ring@.len();
        let e = ring.pop().unwrap();
        assert(e == all[done]);
        assert(all.take(done + 1).drop_last() =~= all.take(done));
        assert(all.take(done + 1).last() == e);
        assert(ring@ =~= all.skip(done + 1));
        let pname = find_proc_name(procs, e.pid);
        if bytes_are(pname.as_slice(), shell.as_slice()) {
            continue;
        }
        let pid_text = u64_to_decimal(e.pid);
        push_padded_right(&mut out, pid_text.as_slice(), 6);
        out.push(0x20u8);
        push_padded_right(&mut out, pname.as_slice(), 6);
        out.push(0x20u8);
        let no_text = u64_to_decimal(e.sysno);
        push_padded_right(&mut out, no_text.as_slice(), 6);
        out.push(0x20u8);
        let name = sysno_text_bytes(e.sysno);
        push_all(&mut out, name.as_slice());
        out.push(0x0Au8);
        assert(out@ =~= strace_text(all.take(done + 1), procs_view(procs@)));
    }
    assert(all.take(all.len() as int) =~= all);
    out
}

/// Whether a proc node is a file or a directory.
pub open spec fn proc_node_type(id: u64) -> Result<FileKindTag, FsError> {
    match decode_spec(id) {
        None => Err(FsError::NotFound),
        Some(ProcNode::Fixed(_)) => Ok(FileKindTag::File),
        Some(_) => Ok(FileKindTag::Dir),
    }
}

/// The parent of a proc node: none for the root, the root for the others.
pub open spec fn proc_parent(id: u64) -> Result<Option<u64>, FsError> {
    match decode_spec(id) {
        None => Err(FsError::NotFound),
        Some(ProcNode::Root) => Ok(None),
        Some(_) => Ok(Some(TAG_ROOT)),
    }
}

/// The name of a proc node: empty for the root, the file's name, or the pid in
/// decimal.
pub open spec fn proc_name_spec(id: u64) -> Result<Seq<u8>, FsError> {
    match decode_spec(id) {
        None => Err(FsError::NotFound),
        Some(ProcNode::Root) => Ok(Seq::empty()),
        Some(ProcNode::Fixed(f)) => Ok(fixed_name(f)),
        Some(ProcNode::PidDir(pid)) => Ok(decimal(pid as nat)),
    }
}

/// What `readdir` of a proc directory gives: the root lists the fixed files
/// and then a directory per process in `pids`; a process directory is empty.
pub open spec fn proc_readdir_ok(dir: u64, pids: Seq<u64>, r: Result<Vec<DirEntry>, FsError>) -> bool {
    match decode_spec(dir) {
        None => r == Err::<Vec<DirEntry>, FsError>(FsError::NotFound),
        Some(ProcNode::Fixed(_)) => r == Err::<Vec<DirEntry>, FsError>(FsError::NotADirectory),
        Some(ProcNode::PidDir(_)) => r is Ok && r->Ok_0@.len() == 0,
        Some(ProcNode::Root) => r is Ok && {
            let v = r->Ok_0@;
            &&& v.len() == 3 + pids.len()
            &&& v[0].id == TAG_FIXED_FILE | 1 && v[0].name@ == meminfo_name() && v[0].ftype == FileKindTag::File
            &&& v[1].id == TAG_FIXED_FILE | 2 && v[1].name@ == uptime_name() && v[1].ftype == FileKindTag::File
            &&& v[2].id == TAG_FIXED_FILE | 3 && v[2].name@ == strace_name() && v[2].ftype == FileKindTag::File
            &&& forall|i: int| #![trigger pids[i]] 0 <= i < pids.len() ==> v[3 + i].id == TAG_PID_DIR | pids[i]
                && v[3 + i].name@ == decimal(pids[i] as nat) && v[3 + i].ftype == FileKindTag::Dir
        },
    }
}

/// What reading a proc file gives: the memory report from the free and total
/// byte counts, the uptime from the tick count, or the drained call trace (the
/// trace is left alone for any other file).
pub open spec fn proc_read_ok(
    file: u64,
    free: u64,
    total: u64,
    ticks: u64,
    before: Seq<Strace>,
    after: Seq<Strace>,
    procs: Seq<(u64, Seq<u8>)>,
    r: Result<Vec<u8>, FsError>,
) -> bool {
    &&& decode_spec(file) != Some(ProcNode::Fixed(FixedFile::Strace)) ==> after == before
    &&& match decode_spec(file) {
        None => r == Err::<Vec<u8>, FsError>(FsError::NotFound),
        Some(ProcNode::Fixed(FixedFile::MemInfo)) => r is Ok && r->Ok_0@ == meminfo_text(free, total),
        Some(ProcNode::Fixed(FixedFile::Uptime)) => r is Ok && r->Ok_0@ == uptime_text(ticks),
        Some(ProcNode::Fixed(FixedFile::Strace)) => r is Ok && r->Ok_0@ == strace_text(before, procs) && after.len() == 0,
        Some(_) => r == Err::<Vec<u8>, FsError>(FsError::IsADirectory),
    }
}

/// The length of a proc file; the trace reports none.
pub open spec fn proc_len_spec(file: u64, free: u64, total: u64, ticks: u64) -> Result<usize, FsError> {
    match decode_spec(file) {
        None => Err(FsError::NotFound),
        Some(ProcNode::Fixed(FixedFile::MemInfo)) => Ok(meminfo_text(free, total).len() as usize),
        Some(ProcNode::Fixed(FixedFile::Uptime)) => Ok(uptime_text(ticks).len() as usize),
        Some(ProcNode::Fixed(FixedFile::Strace)) => Ok(0),
        Some(_) => Err(FsError::IsADirectory),
    }
}

/// The proc file system: the fixed files and a directory per process, made up
/// on each request.
#[derive(Debug)]
pub struct Procfs;

impl Procfs {
    pub fn new() -> (r: Procfs) {
        Procfs
    }

    pub fn root(&self) -> (r: u64)
        ensures
            r == TAG_ROOT,
    {
        0
    }

    pub fn lookup(&self, dir: u64, name: &[u8]) -> (r: Result<u64, FsError>)
        ensures
            r == lookup_child_spec(dir, name@),
    {
        lookup_child(dir, name)
    }

    pub fn node_type(&self, id: u64) -> (r: Result<FileKindTag, FsError>)
        ensures
            r == proc_node_type(id),
    {
        match decode(id) {
            None => Err(FsError::NotFound),
            Some(ProcNode::Root) => Ok(FileKindTag::Dir),
            Some(ProcNode::Fixed(_)) => Ok(FileKindTag::File),
            Some(ProcNode::PidDir(_)) => Ok(FileKindTag::Dir),
        }
    }

    pub fn parent(&self, id: u64) -> (r: Result<Option<u64>, FsError>)
        ensures
            r == proc_parent(id),
    {
        match decode(id) {
            None => Err(FsError::NotFound),
            Some(ProcNode::Root) => Ok(None),
            Some(ProcNode::Fixed(_)) => Ok(Some(TAG_ROOT)),
            Some(ProcNode::PidDir(_)) => Ok(Some(TAG_ROOT)),
        }
    }

    pub fn name(&self, id: u64) -> (r: Result<Vec<u8>, FsError>)
        ensures
            match proc_name_spec(id) {
                Err(e) => r == Err::<Vec<u8>, FsError>(e),
                Ok(n) => r is Ok && r->Ok_0@ == n,
            },
    {
        match decode(id) {
            None => Err(FsError::NotFound),
            Some(ProcNode::Root) => Ok(Vec::new()),
            Some(ProcNode::Fixed(f)) => Ok(fixed_name_bytes(f)),
            Some(ProcNode::PidDir(pid)) => Ok(u64_to_decimal(pid)),
        }
    }

    /// The entries of a directory: the root lists the fixed files and then a
    /// directory per process in `pids`; a process directory is empty.
    pub fn readdir(&self, dir: u64, pids: &[u64]) -> (r: Result<Vec<DirEntry>, FsError>)
        ensures
            proc_readdir_ok(dir, pids@, r),
    {
        match decode(dir) {
            None => Err(FsError::NotFound),
            Some(ProcNode::Fixed(_)) => Err(FsError::NotADirectory),
            Some(ProcNode::PidDir(_)) => Ok(Vec::new()),
            Some(ProcNode::Root) => {
                let mut v: Vec<DirEntry> = Vec::new();
                v.push(DirEntry { id: fixed_id(FixedFile::MemInfo), name: fixed_name_bytes(FixedFile::MemInfo), ftype: FileKindTag::File });
                v.push(DirEntry { id: fixed_id(FixedFile::Uptime), name: fixed_name_bytes(FixedFile::Uptime), ftype: FileKindTag::File });
                v.push(DirEntry { id: fixed_id(FixedFile::Strace), name: fixed_name_bytes(FixedFile::Strace), ftype: FileKindTag::File });
                let mut i: usize = 0;
                while i < pids.len()
                    invariant
                        i <= pids@.len(),
                        v@.len() == 3 + i,
                        v@[0].id == TAG_FIXED_FILE | 1 && v@[0].name@ == meminfo_name() && v@[0].ftype == FileKindTag::File,
                        v@[1].id == TAG_FIXED_FILE | 2 && v@[1].name@ == uptime_name() && v@[1].ftype == FileKindTag::File,
                        v@[2].id == TAG_FIXED_FILE | 3 && v@[2].name@ == strace_name() && v@[2].ftype == FileKindTag::File,
                        forall|j: int| #![trigger pids@[j]] 0 <= j < i ==> v@[3 + j].id == TAG_PID_DIR | pids@[j]
                            && v@[3 + j].name@ == decimal(pids@[j] as nat) && v@[3 + j].ftype == FileKindTag::Dir,
                    decreases pids@.len() - i,
                {
                    let pid = pids[i];
                    v.push(DirEntry { id: pid_dir_id(pid), name: u64_to_decimal(pid), ftype: FileKindTag::Dir });
                    i = i + 1;
                }
                Ok(v)
            },
        }
    }

    /// The contents of a file: the memory report from the free and total byte
    /// counts, the uptime from the tick count, or the drained call trace.
    pub fn read<const N: usize>(
        &self,
        file: u64,
        free: u64,
        total: u64,
        ticks: u64,
        strace: &mut SpscRing<Strace, N>,
        procs: &[(u64, Vec<u8>)],
    ) -> (r: Result<Vec<u8>, FsError>)
        requires
            old(strace).wf(),
        ensures
            final(strace).wf(),
            proc_read_ok(file, free, total, ticks, old(strace)@, final(strace)@, procs_view(procs@), r),
    {
        match decode(file) {
            None => Err(FsError::NotFound),
            Some(ProcNode::Fixed(FixedFile::MemInfo)) => Ok(cmd_mem(free, total)),
            Some(ProcNode::Fixed(FixedFile::Uptime)) => Ok(uptime_ms(ticks)),
            Some(ProcNode::Fixed(FixedFile::Strace)) => Ok(flush_strace(strace, procs)),
            Some(ProcNode::Root) => Err(FsError::IsADirectory),
            Some(ProcNode::PidDir(_)) => Err(FsError::IsADirectory),
        }
    }

    /// The length of a file; the trace reports no length.
    pub fn len(&self, file: u64, free: u64, total: u64, ticks: u64) -> (r: Result<usize, FsError>)
        ensures
            r == proc_len_spec(file, free, total, ticks),
    {
        match decode(file) {
            None => Err(FsError::NotFound),
            Some(ProcNode::Fixed(FixedFile::MemInfo)) => Ok(cmd_mem(free, total).len()),
            Some(ProcNode::Fixed(FixedFile::Uptime)) => Ok(uptime_ms(ticks).len()),
            Some(ProcNode::Fixed(FixedFile::Strace)) => Ok(0),
            Some(ProcNode::Root) => Err(FsError::IsADirectory),
            Some(ProcNode::PidDir(_)) => Err(FsError::IsADirectory),
        }
    }

    /// The proc file system cannot be written.
    pub fn append(&mut self, file: u64, bytes: &[u8]) -> (r: Result<(), FsError>)
        ensures
            r == Err::<(), FsError>(FsError::PermissionDenied),
    {
        Err(FsError::PermissionDenied)
    }

    /// No file can be made in the proc file system.
    pub fn create(&mut self, dir: u64, name: &[u8]) -> (r: Result<u64, FsError>)
        ensures
            r == Err::<u64, FsError>(FsError::PermissionDenied),
    {
        Err(FsError::PermissionDenied)
    }

    /// Proc files are made on each read, so none can be borrowed.
    pub fn file_read_borrow(&self, file: u64) -> (r: Result<&[u8], FsError>)
        ensures
            r == Err::<&[u8], FsError>(FsError::PermissionDenied),
    {
        Err(FsError::PermissionDenied)
    }

    /// No directory can be made in the proc file system.
    pub fn mkdir(&mut self, dir: u64, name: &[u8]) -> (r: Result<u64, FsError>)
        ensures
            r == Err::<u64, FsError>(FsError::PermissionDenied),
    {
        Err(FsError::PermissionDenied)
    }

    /// The proc file system cannot be written.
    pub fn write_at(&mut self, file: u64, off: usize, bytes: &[u8]) -> (r: Result<usize, FsError>)
        ensures
            r == Err::<usize, FsError>(FsError::PermissionDenied),
    {
        Err(FsError::PermissionDenied)
    }

    /// The proc file system cannot be written.
    pub fn write_trunc(&mut self, file: u64, bytes: &[u8]) -> (r: Result<usize, FsError>)
        ensures
            r == Err::<usize, FsError>(FsError::PermissionDenied),
    {
        Err(FsError::PermissionDenied)
    }
}

/// A process directory's id names that process again, for every pid below the
/// tag bits.
pub proof fn law_pid_dir_id_decodes(pid: u64)
    requires
        pid & TAG_MASK == 0,
    ensures
        decode_spec(TAG_PID_DIR | pid) == Some(ProcNode::PidDir(pid)),
{
    assert((TAG_PID_DIR | pid) != TAG_ROOT && (TAG_PID_DIR | pid) & TAG_MASK == TAG_PID_DIR && (TAG_PID_DIR | pid)
        & TAG_MASK != TAG_FIXED_FILE && (TAG_PID_DIR | pid) & !TAG_PID_DIR == pid) by (bit_vector)
        requires
            pid & 0xF000_0000_0000_0000u64 == 0,
    ;
}

} // verus!
