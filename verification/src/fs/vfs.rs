use vstd::prelude::*;
use std::collections::BTreeMap;
use crate::fs::DirEntry;
use crate::fs::file_descriptor::OpenFile;
use crate::fs::procfs::{lookup_child_spec, proc_name_spec, proc_node_type, proc_parent, Procfs, TAG_ROOT};
use crate::fs::ramfs::{join_path, Ramfs};
use crate::fs::ramfs_model::{
    create_in, entry_of, entry_ok, fs_wf, split_from, is_absolute, is_dir_node, mkdir_in, parent_ok, path_components, slash,
    slash_joined, path_text, trim_slashes, last_slash, NodeView,
};
use crate::sys::errors::FsError;
use crate::sys::syscall::FileKindTag;
use crate::syscall::syscall_dispatch::Strace;
use crate::utils::ringbuffer::SpscRing;

verus! {

broadcast use vstd::std_specs::btree::group_btree_axioms, vstd::laws_cmp::group_laws_cmp;

pub type MountId = u32;

/// A node of the whole file tree: the mount it belongs to and its id there.
#[derive(Debug, Clone, Copy, PartialEq, Eq, Structural)]
pub struct VfsNode {
    pub mount: MountId,
    pub node: u64,
}

/// Which file system a mount shows.
#[derive(Debug, Clone, Copy, PartialEq, Eq, Structural)]
pub enum Backend {
    Ramfs,
    Procfs,
}

/// A mounted file system: its kind, its root node and where it is mounted (none
/// for the root mount).
#[derive(Debug, Clone, Copy, PartialEq, Eq, Structural)]
pub struct Mount {
    pub backend: Backend,
    pub root_node: u64,
    pub mountpoint: Option<VfsNode>,
}

/// What the proc file system reports: the live processes (pid and command name,
/// by pid), the free and total memory and the tick count.
#[derive(Debug)]
pub struct ProcSources {
    pub pids: Vec<u64>,
    pub procs: Vec<(u64, Vec<u8>)>,
    pub free: u64,
    pub total: u64,
    pub ticks: u64,
}

/// The file tree: the RAM file system as root mount and the file systems mounted
/// on it, with what the proc file system reports and the system-call trace.
#[derive(Debug)]
pub struct Vfs {
    pub ramfs: Ramfs,
    pub procfs: Procfs,
    pub sources: ProcSources,
    pub strace: SpscRing<Strace, 2048>,
    pub mounts: Vec<Mount>,
    pub by_mountpoint: BTreeMap<(MountId, u64), MountId>,
}

/// The file tree as plain values: the RAM file system's nodes, the mounts, and
/// which mount covers which node.
pub struct VfsView {
    pub fs: Seq<NodeView>,
    pub mounts: Seq<Mount>,
    pub mps: Map<(MountId, u64), MountId>,
}

// ---------------------------------------------------------------------------
// The operations of each file system, as plain functions.

/// What listing directory `dir` gives: procfs lists its own entries for the pids
/// `pids`; the RAM file system refuses a node it lacks or a file, and lists a
/// directory's children in order, each with its name, id and kind.
pub open spec fn readdir_ok(v: VfsView, pids: Seq<u64>, dir: VfsNode, r: Result<Vec<DirEntry>, FsError>) -> bool {
    &&& v.backend_of(dir.mount) == Backend::Procfs ==> crate::fs::procfs::proc_readdir_ok(dir.node, pids, r)
    &&& v.backend_of(dir.mount) == Backend::Ramfs ==> {
        let fs = v.fs;
        let id = (dir.node as usize) as int;
        &&& id >= fs.len() ==> r == Err::<Vec<DirEntry>, FsError>(FsError::NotFound)
        &&& crate::fs::ramfs_model::is_file_node(fs, id) ==> r == Err::<Vec<DirEntry>, FsError>(FsError::NotADirectory)
        &&& is_dir_node(fs, id) ==> r is Ok && {
            let ch = fs[id].children();
            let w = r->Ok_0@;
            &&& w.len() == ch.len()
            &&& forall|i: int| #![trigger w[i]] 0 <= i < w.len() ==> w[i].id == ch[i].1 as u64 && w[i].name@
                == ch[i].0 && w[i].ftype == fs[ch[i].1 as int].tag()
        }
    }
}

pub open spec fn ram_lookup(fs: Seq<NodeView>, dir: int, name: Seq<u8>) -> Result<u64, FsError> {
    if dir >= fs.len() {
        Err(FsError::NotFound)
    } else if !fs[dir].is_dir() {
        Err(FsError::NotADirectory)
    } else {
        match entry_of(fs[dir].children(), name) {
            Some(id) => Ok(id as u64),
            None => Err(FsError::NotFound),
        }
    }
}

pub open spec fn ram_parent(fs: Seq<NodeView>, id: int) -> Result<Option<u64>, FsError> {
    if id >= fs.len() {
        Err(FsError::NotFound)
    } else {
        match fs[id].parent() {
            Some(p) => Ok(Some(p as u64)),
            None => Ok(None),
        }
    }
}

pub open spec fn ram_node_type(fs: Seq<NodeView>, id: int) -> Result<FileKindTag, FsError> {
    if id >= fs.len() {
        Err(FsError::NotFound)
    } else {
        Ok(fs[id].tag())
    }
}

pub open spec fn ram_name(fs: Seq<NodeView>, id: int) -> Result<Seq<u8>, FsError> {
    if id >= fs.len() {
        Err(FsError::NotFound)
    } else {
        Ok(fs[id].name())
    }
}

impl VfsView {
    pub open spec fn backend_of(self, mnt: MountId) -> Backend {
        self.mounts[mnt as int].backend
    }

    pub open spec fn b_lookup(self, mnt: MountId, dir: u64, name: Seq<u8>) -> Result<u64, FsError> {
        match self.backend_of(mnt) {
            Backend::Ramfs => ram_lookup(self.fs, (dir as usize) as int, name),
            Backend::Procfs => lookup_child_spec(dir, name),
        }
    }

    pub open spec fn b_parent(self, mnt: MountId, id: u64) -> Result<Option<u64>, FsError> {
        match self.backend_of(mnt) {
            Backend::Ramfs => ram_parent(self.fs, (id as usize) as int),
            Backend::Procfs => proc_parent(id),
        }
    }

    pub open spec fn b_node_type(self, mnt: MountId, id: u64) -> Result<FileKindTag, FsError> {
        match self.backend_of(mnt) {
            Backend::Ramfs => ram_node_type(self.fs, (id as usize) as int),
            Backend::Procfs => proc_node_type(id),
        }
    }

    pub open spec fn b_name(self, mnt: MountId, id: u64) -> Result<Seq<u8>, FsError> {
        match self.backend_of(mnt) {
            Backend::Ramfs => ram_name(self.fs, (id as usize) as int),
            Backend::Procfs => proc_name_spec(id),
        }
    }

    /// The root of the whole tree.
    pub open spec fn root_vnode(self) -> VfsNode {
        VfsNode { mount: 0, node: self.mounts[0].root_node }
    }

    /// A node the tree knows the mount of; a node of the RAM file system exists.
    pub open spec fn valid(self, n: VfsNode) -> bool {
        &&& n.mount < self.mounts.len()
        &&& self.backend_of(n.mount) == Backend::Ramfs ==> n.node < self.fs.len()
    }

    /// The tree shape: the RAM file system is well formed and is the root mount;
    /// every other mount is mounted on a node of an earlier mount that has a
    /// parent; the covering index names exactly mounts on the covered node.
    pub open spec fn wf(self) -> bool {
        &&& fs_wf(self.fs)
        &&& self.fs.len() < usize::MAX
        &&& 1 <= self.mounts.len() < u32::MAX
        &&& self.mounts[0] == (Mount { backend: Backend::Ramfs, root_node: 0, mountpoint: None })
        &&& forall|i: int|
            #![trigger self.mounts[i]]
            1 <= i < self.mounts.len() ==> match self.mounts[i].mountpoint {
                Some(mp) => mp.mount < i && self.valid(mp) && self.b_parent(mp.mount, mp.node) matches Ok(Some(_)),
                None => false,
            }
        &&& forall|i: int|
            #![trigger self.mounts[i]]
            0 <= i < self.mounts.len() && self.mounts[i].backend == Backend::Ramfs ==> self.mounts[i].root_node < self.fs.len()
        &&& forall|k: (MountId, u64)|
            #[trigger] self.mps.contains_key(k) ==> 1 <= self.mps[k] < self.mounts.len() && self.mounts[self.mps[k] as int].mountpoint
                == Some(VfsNode { mount: k.0, node: k.1 })
    }

    /// One step down into entry `name`, crossing into a file system mounted there.
    pub open spec fn step_lookup(self, curr: VfsNode, name: Seq<u8>) -> Result<VfsNode, FsError> {
        match self.b_lookup(curr.mount, curr.node, name) {
            Err(e) => Err(e),
            Ok(child) => if self.mps.contains_key((curr.mount, child)) {
                let m = self.mps[(curr.mount, child)];
                Ok(VfsNode { mount: m, node: self.mounts[m as int].root_node })
            } else {
                Ok(VfsNode { mount: curr.mount, node: child })
            },
        }
    }

    /// One step up: from a mount's root to the parent of its mountpoint (the tree's
    /// root stays), elsewhere to the parent in the same file system (its root if it
    /// has none).
    pub open spec fn step_parent(self, curr: VfsNode) -> Result<VfsNode, FsError> {
        let m = self.mounts[curr.mount as int];
        if curr.node == m.root_node {
            match m.mountpoint {
                Some(mp) => match self.b_parent(mp.mount, mp.node) {
                    Err(e) => Err(e),
                    Ok(p) => Ok(VfsNode { mount: mp.mount, node: p.unwrap() }),
                },
                None => Ok(curr),
            }
        } else {
            match self.b_parent(curr.mount, curr.node) {
                Err(e) => Err(e),
                Ok(p) => Ok(VfsNode { mount: curr.mount, node: p.unwrap_or(m.root_node) }),
            }
        }
    }

    /// Resolving path components from `curr`: "." stays, ".." goes up, a name
    /// goes down.
    pub open spec fn walk(self, curr: VfsNode, comps: Seq<Seq<u8>>) -> Result<VfsNode, FsError>
        decreases comps.len(),
    {
        if comps.len() == 0 {
            Ok(curr)
        } else {
            let c = comps[0];
            let next = if c == seq![0x2Eu8] {
                Ok(curr)
            } else if c == seq![0x2Eu8, 0x2Eu8] {
                self.step_parent(curr)
            } else {
                self.step_lookup(curr, c)
            };
            match next {
                Err(e) => Err(e),
                Ok(n) => self.walk(n, comps.drop_first()),
            }
        }
    }

    /// Resolving a path: from the root if it starts with '/', else from `start`.
    pub open spec fn resolve(self, start: VfsNode, p: Seq<u8>) -> Result<VfsNode, FsError> {
        self.walk(if is_absolute(p) { self.root_vnode() } else { start }, path_components(p))
    }

    /// Splitting a path into the directory it names an entry of and that entry's
    /// name: trailing '/'s do not count, "." and ".." and the root are refused.
    pub open spec fn resolve_parent(self, start: VfsNode, path: Seq<u8>) -> Result<(VfsNode, Seq<u8>), FsError> {
        let p = trim_slashes(path);
        if p.len() == 0 {
            Err(FsError::InvalidPath)
        } else {
            let j = last_slash(p);
            if j < 0 {
                if p == seq![0x2Eu8] || p == seq![0x2Eu8, 0x2Eu8] {
                    Err(FsError::InvalidPath)
                } else {
                    Ok((if is_absolute(path) { self.root_vnode() } else { start }, p))
                }
            } else {
                let leaf = p.subrange(j + 1, p.len() as int);
                let parent_part = p.subrange(0, j);
                if leaf.len() == 0 || leaf == seq![0x2Eu8] || leaf == seq![0x2Eu8, 0x2Eu8] {
                    Err(FsError::InvalidPath)
                } else {
                    match self.resolve(start, if parent_part.len() == 0 { seq![slash()] } else { parent_part }) {
                        Err(e) => Err(e),
                        Ok(n) => Ok((n, leaf)),
                    }
                }
            }
        }
    }
}

impl VfsView {
    /// With the mount, the measure that each step of `vnames` lowers: a mount's
    /// root that is mounted somewhere is lowest; in the RAM file system a parent
    /// comes before its child; in the proc file system every node is one below
    /// the root.
    pub open spec fn vrank(self, n: VfsNode) -> nat {
        let m = self.mounts[n.mount as int];
        if n.node == m.root_node && m.mountpoint is Some {
            0
        } else if m.backend == Backend::Ramfs {
            n.node as nat + 1
        } else if n.node == TAG_ROOT {
            1
        } else {
            2
        }
    }

    /// The names on the way from the tree's root down to `n` (a mount's root
    /// stands for its mountpoint), or the error met on the way up.
    pub open spec fn vnames(self, n: VfsNode) -> Result<Seq<Seq<u8>>, FsError>
        decreases n.mount, self.vrank(n),
    {
        if n == self.root_vnode() {
            Ok(Seq::empty())
        } else {
            let m = self.mounts[n.mount as int];
            if n.node == m.root_node && m.mountpoint is Some {
                let mp = m.mountpoint.unwrap();
                if mp.mount < n.mount {
                    self.vnames(mp)
                } else {
                    Ok(Seq::empty())
                }
            } else {
                match self.b_name(n.mount, n.node) {
                    Err(e) => Err(e),
                    Ok(name) => match self.step_parent(n) {
                        Err(e) => Err(e),
                        Ok(next) => if next != n && next.mount == n.mount && self.vrank(next) < self.vrank(n) {
                            match self.vnames(next) {
                                Err(e) => Err(e),
                                Ok(up) => Ok(up.push(name)),
                            }
                        } else {
                            Ok(seq![name])
                        },
                    },
                }
            }
        }
    }
}

impl Vfs {
    pub open spec fn view(&self) -> VfsView {
        VfsView {
            fs: self.ramfs@,
            mounts: self.mounts@,
            mps: self.by_mountpoint@,
        }
    }

    pub open spec fn wf(&self) -> bool {
        &&& self.view().wf()
        &&& self.strace.wf()
    }

    /// The file tree with the RAM file system at its root and the proc file system
    /// mounted on its directory "/proc" (made if missing).
    pub fn new(ramfs: Ramfs, sources: ProcSources, strace: SpscRing<Strace, 2048>) -> (r: Vfs)
        requires
            ramfs.wf(),
            ramfs@.len() + 5 < usize::MAX,
            strace.wf(),
            crate::fs::ramfs_model::mkdir_p_result(ramfs@, proc_path()).1 is Ok,
        ensures
            r.wf(),
            r.ramfs@ == crate::fs::ramfs_model::mkdir_p_result(ramfs@, proc_path()).0,
            r.view().mounts.len() == 2,
            r.view().mounts[1].backend == Backend::Procfs,
            r.view().mounts[1].root_node == 0,
    {
        let mut ramfs = ramfs;
        let ghost fs0 = ramfs@;
        let p: Vec<u8> = vec![0x2Fu8, 0x70u8, 0x72u8, 0x6Fu8, 0x63u8];
        assert(p@ =~= proc_path());
        proof {
            crate::fs::ramfs_laws::law_mkdir_p_then_lookup_dir(fs0, proc_path());
            crate::fs::ramfs_model::lemma_components_len(proc_path());
            crate::fs::ramfs_laws::lemma_mkdir_walk(fs0, 0, path_components(proc_path()));
        }
        let _ = ramfs.mkdir_p(p.as_slice());
        let name: Vec<u8> = vec![0x70u8, 0x72u8, 0x6Fu8, 0x63u8];
        let root = ramfs.root();
        let node = match ramfs.lookup(root, name.as_slice()) {
            Ok(n) => n,
            Err(_) => {
                proof {
                    lemma_proc_lookup(ramfs@, fs0);
                }
                assert(false);
                0
            },
        };
        proof {
            lemma_proc_lookup(ramfs@, fs0);
        }
        let mut mounts: Vec<Mount> = Vec::new();
        mounts.push(Mount { backend: Backend::Ramfs, root_node: 0, mountpoint: None });
        let mut vfs = Vfs { ramfs, procfs: Procfs::new(), sources, strace, mounts, by_mountpoint: BTreeMap::new() };
        let mp = VfsNode { mount: 0, node: node as u64 };
        assert(vfs.view().wf());
        match vfs.mount_at(mp, Backend::Procfs, 0) {
            Ok(_) => {},
            Err(_) => {
                assert(false);
            },
        }
        vfs
    }

    /// Mounts a file system with root `backend_root` on directory `mountpoint`;
    /// refused if the mountpoint is not a directory.
    pub fn mount_at(&mut self, mountpoint: VfsNode, backend: Backend, backend_root: u64) -> (r: Result<MountId, FsError>)
        requires
            old(self).wf(),
            old(self).view().valid(mountpoint),
            old(self).view().mounts.len() + 1 < u32::MAX,
        ensures
            final(self).ramfs@ == old(self).ramfs@,
            final(self).strace@ == old(self).strace@ && final(self).strace.wf(),
            old(self).view().b_node_type(mountpoint.mount, mountpoint.node) != Ok::<FileKindTag, FsError>(FileKindTag::Dir) ==> final(self).view() == old(self).view() && r == match old(self).view().b_node_type(mountpoint.mount, mountpoint.node) {
                Err(e) => Err(e),
                Ok(_) => Err::<MountId, FsError>(FsError::NotADirectory),
            },
            old(self).view().b_node_type(mountpoint.mount, mountpoint.node) == Ok::<FileKindTag, FsError>(FileKindTag::Dir) ==> {
                &&& r == Ok::<MountId, FsError>(old(self).view().mounts.len() as u32)
                &&& final(self).view().mounts == old(self).view().mounts.push(
                    Mount { backend, root_node: backend_root, mountpoint: Some(mountpoint) },
                )
                &&& final(self).view().mps == old(self).view().mps.insert(
                    (mountpoint.mount, mountpoint.node),
                    old(self).view().mounts.len() as u32,
                )
                &&& final(self).view().fs == old(self).view().fs
                &&& (old(self).view().b_parent(mountpoint.mount, mountpoint.node) matches Ok(Some(_))) && (backend
                    == Backend::Ramfs ==> backend_root < old(self).view().fs.len()) ==> final(self).wf()
            },
    {
        match self.backend_node_type(mountpoint.mount, mountpoint.node) {
            Ok(FileKindTag::Dir) => {},
            Ok(_) => return Err(FsError::NotADirectory),
            Err(e) => return Err(e),
        }
        let child_mnt = self.mounts.len() as u32;
        self.mounts.push(Mount { backend, root_node: backend_root, mountpoint: Some(mountpoint) });
        self.by_mountpoint.insert((mountpoint.mount, mountpoint.node), child_mnt);
        proof {
            let v0 = old(self).view();
            let v = self.view();
            if (v0.b_parent(mountpoint.mount, mountpoint.node) matches Ok(Some(_))) && (backend == Backend::Ramfs
                ==> backend_root < v0.fs.len()) {
                assert forall|i: int|
                    #![trigger v.mounts[i]]
                    0 <= i < v.mounts.len() && v.mounts[i].backend == Backend::Ramfs implies v.mounts[i].root_node
                    < v.fs.len() by {
                    if i < v0.mounts.len() {
                        assert(v.mounts[i] == v0.mounts[i]);
                    }
                }
                assert forall|i: int|
                    #![trigger v.mounts[i]]
                    1 <= i < v.mounts.len() implies match v.mounts[i].mountpoint {
                    Some(mp) => mp.mount < i && v.valid(mp) && v.b_parent(mp.mount, mp.node) matches Ok(Some(_)),
                    None => false,
                } by {
                    if i < v0.mounts.len() {
                        assert(v.mounts[i] == v0.mounts[i]);
                        assert(v0.mounts[i] == v0.mounts[i]);
                        if let Some(mp) = v.mounts[i].mountpoint {
                            assert(v.mounts[mp.mount as int] == v0.mounts[mp.mount as int]);
                        }
                    } else {
                        assert(v.mounts[mountpoint.mount as int] == v0.mounts[mountpoint.mount as int]);
                    }
                }
                assert forall|k: (MountId, u64)| #[trigger] v.mps.contains_key(k) implies 1 <= v.mps[k] < v.mounts.len()
                    && v.mounts[v.mps[k] as int].mountpoint == Some(VfsNode { mount: k.0, node: k.1 }) by {
                    if k != (mountpoint.mount, mountpoint.node) {
                        assert(v0.mps.contains_key(k));
                    }
                }
                assert(v.mounts[0] == v0.mounts[0]);
            }
        }
        Ok(child_mnt)
    }

    fn backend_node_type(&self, mnt: MountId, id: u64) -> (r: Result<FileKindTag, FsError>)
        requires
            mnt < self.mounts@.len(),
        ensures
            r == self.view().b_node_type(mnt, id),
    {
        match self.mounts[mnt as usize].backend {
            Backend::Ramfs => self.ramfs.node_type(id as usize),
            Backend::Procfs => self.procfs.node_type(id),
        }
    }

    fn backend_lookup(&self, mnt: MountId, dir: u64, name: &[u8]) -> (r: Result<u64, FsError>)
        requires
            self.wf(),
            self.view().valid(VfsNode { mount: mnt, node: dir }),
        ensures
            r == self.view().b_lookup(mnt, dir, name@),
    {
        match self.mounts[mnt as usize].backend {
            Backend::Ramfs => match self.ramfs.lookup(dir as usize, name) {
                Ok(id) => Ok(id as u64),
                Err(e) => Err(e),
            },
            Backend::Procfs => self.procfs.lookup(dir, name),
        }
    }

    fn backend_parent(&self, mnt: MountId, id: u64) -> (r: Result<Option<u64>, FsError>)
        requires
            mnt < self.mounts@.len(),
        ensures
            r == self.view().b_parent(mnt, id),
    {
        match self.mounts[mnt as usize].backend {
            Backend::Ramfs => match self.ramfs.parent(id as usize) {
                Ok(Some(p)) => Ok(Some(p as u64)),
                Ok(None) => Ok(None),
                Err(e) => Err(e),
            },
            Backend::Procfs => self.procfs.parent(id),
        }
    }

    fn backend_name(&self, mnt: MountId, id: u64) -> (r: Result<Vec<u8>, FsError>)
        requires
            mnt < self.mounts@.len(),
        ensures
            match self.view().b_name(mnt, id) {
                Err(e) => r == Err::<Vec<u8>, FsError>(e),
                Ok(n) => r is Ok && r->Ok_0@ == n,
            },
    {
        match self.mounts[mnt as usize].backend {
            Backend::Ramfs => self.ramfs.name(id as usize),
            Backend::Procfs => self.procfs.name(id),
        }
    }

    /// The root of the whole tree.
    pub fn root_vnode(&self) -> (r: VfsNode)
        requires
            self.wf(),
        ensures
            r == self.view().root_vnode(),
    {
        VfsNode { mount: 0, node: self.mounts[0].root_node }
    }

    fn mounted_over(&self, at: VfsNode) -> (r: Option<MountId>)
        ensures
            r == (if self.view().mps.contains_key((at.mount, at.node)) {
                Some(self.view().mps[(at.mount, at.node)])
            } else {
                None
            }),
    {
        match self.by_mountpoint.get(&(at.mount, at.node)) {
            Some(m) => Some(*m),
            None => None,
        }
    }

    fn step_lookup(&self, curr: VfsNode, name: &[u8]) -> (r: Result<VfsNode, FsError>)
        requires
            self.wf(),
            self.view().valid(curr),
        ensures
            r == self.view().step_lookup(curr, name@),
            r is Ok ==> self.view().valid(r->Ok_0),
    {
        let child = match self.backend_lookup(curr.mount, curr.node, name) {
            Ok(c) => c,
            Err(e) => return Err(e),
        };
        let next = VfsNode { mount: curr.mount, node: child };
        match self.mounted_over(next) {
            Some(child_mount) => {
                let root = self.mounts[child_mount as usize].root_node;
                Ok(VfsNode { mount: child_mount, node: root })
            },
            None => Ok(next),
        }
    }

    fn step_parent(&self, curr: VfsNode) -> (r: Result<VfsNode, FsError>)
        requires
            self.wf(),
            curr.mount < self.mounts@.len(),
        ensures
            r == self.view().step_parent(curr),
            r is Ok ==> self.view().valid(r->Ok_0),
    {
        let m = self.mounts[curr.mount as usize];
        if curr.node == m.root_node {
            if let Some(mp) = m.mountpoint {
                assert(self.view().mounts[curr.mount as int] == m);
                let parent = match self.backend_parent(mp.mount, mp.node) {
                    Ok(p) => p,
                    Err(e) => return Err(e),
                };
                proof {
                    let v = self.view();
                    assert(v.mounts[curr.mount as int] == m);
                    if v.backend_of(mp.mount) == Backend::Ramfs && mp.node > 0 {
                        assert(parent_ok(v.fs, mp.node as int));
                    }
                }
                return Ok(VfsNode { mount: mp.mount, node: parent.unwrap() });
            }
            return Ok(curr);
        }
        let p = match self.backend_parent(curr.mount, curr.node) {
            Ok(p) => p,
            Err(e) => return Err(e),
        };
        proof {
            let v = self.view();
            assert(v.mounts[curr.mount as int] == m);
            if v.backend_of(curr.mount) == Backend::Ramfs && (curr.node as usize) > 0 && (curr.node as usize) < v.fs.len() {
                assert(parent_ok(v.fs, (curr.node as usize) as int));
            }
        }
        Ok(VfsNode { mount: curr.mount, node: p.unwrap_or(m.root_node) })
    }

    /// The node a path leads to: from the root if it starts with '/', else from
    /// `start`.
    pub fn resolve(&self, start: VfsNode, path: &[u8]) -> (r: Result<VfsNode, FsError>)
        requires
            self.wf(),
            self.view().valid(start),
        ensures
            r == self.view().resolve(start, path@),
            r is Ok ==> self.view().valid(r->Ok_0),
    {
        let mut curr = if path.len() > 0 && path[0] == 0x2Fu8 {
            self.root_vnode()
        } else {
            start
        };
        let comps = crate::fs::ramfs::split_path(path);
        let ghost cs = path_components(path@);
        let ghost v = self.view();
        let mut i: usize = 0;
        assert(cs.skip(0) =~= cs);
        while i < comps.len()
            invariant
                self.wf(),
                v == self.view(),
                v.valid(curr),
                i <= comps@.len(),
                comps@.len() == cs.len(),
                cs == path_components(path@),
                forall|j: int| 0 <= j < comps@.len() ==> (#[trigger] comps@[j])@ == cs[j],
                v.resolve(start, path@) == v.walk(curr, cs.skip(i as int)),
            decreases comps@.len() - i,
        {
            let c = comps[i].as_slice();
            assert(c@ == cs[i as int]);
            assert(cs.skip(i as int)[0] == cs[i as int]);
            assert(cs.skip(i as int).drop_first() =~= cs.skip(i + 1));
            if c.len() == 1 && c[0] == 0x2Eu8 {
                assert(c@ =~= seq![0x2Eu8]);
            } else if c.len() == 2 && c[0] == 0x2Eu8 && c[1] == 0x2Eu8 {
                assert(c@ =~= seq![0x2Eu8, 0x2Eu8]);
                curr = match self.step_parent(curr) {
                    Ok(n) => n,
                    Err(e) => return Err(e),
                };
            } else {
                assert(c@ != seq![0x2Eu8]);
                assert(c@ != seq![0x2Eu8, 0x2Eu8]);
                curr = match self.step_lookup(curr, c) {
                    Ok(n) => n,
                    Err(e) => return Err(e),
                };
            }
            i = i + 1;
        }
        assert(cs.skip(i as int) =~= Seq::<Seq<u8>>::empty());
        Ok(curr)
    }

    /// The directory a path names an entry of, and that entry's name.
    pub fn resolve_parent(&self, start: VfsNode, path: &[u8]) -> (r: Result<(VfsNode, Vec<u8>), FsError>)
        requires
            self.wf(),
            self.view().valid(start),
        ensures
            match self.view().resolve_parent(start, path@) {
                Err(e) => r == Err::<(VfsNode, Vec<u8>), FsError>(e),
                Ok((n, leaf)) => r is Ok && r->Ok_0.0 == n && r->Ok_0.1@ == leaf,
            },
            r is Ok ==> self.view().valid(r->Ok_0.0),
    {
        let ghost p0 = path@;
        let mut end = path.len();
        assert(p0.subrange(0, end as int) =~= p0);
        while end > 0 && path[end - 1] == 0x2Fu8
            invariant
                end <= p0.len(),
                p0 == path@,
                trim_slashes(p0) == trim_slashes(p0.subrange(0, end as int)),
            decreases end,
        {
            assert(p0.subrange(0, end as int).drop_last() =~= p0.subrange(0, end - 1));
            end = end - 1;
        }
        let ghost t = p0.subrange(0, end as int);
        assert(trim_slashes(t) == t);
        if end == 0 {
            return Err(FsError::InvalidPath);
        }
        let mut j = end;
        assert(t.subrange(0, j as int) =~= t);
        while j > 0 && path[j - 1] != 0x2Fu8
            invariant
                j <= end <= p0.len(),
                p0 == path@,
                t == p0.subrange(0, end as int),
                last_slash(t) == last_slash(t.subrange(0, j as int)),
            decreases j,
        {
            assert(t.subrange(0, j as int).drop_last() =~= t.subrange(0, j - 1));
            j = j - 1;
        }
        let leaf = crate::fs::copy_bytes(slice_range(path, if j == 0 { 0 } else { j }, end).as_slice());
        if j == 0 {
            assert(last_slash(t.subrange(0, 0)) == -1);
            assert(leaf@ =~= t);
            if (end == 1 && path[0] == 0x2Eu8) || (end == 2 && path[0] == 0x2Eu8 && path[1] == 0x2Eu8) {
                assert(t =~= seq![0x2Eu8] || t =~= seq![0x2Eu8, 0x2Eu8]);
                return Err(FsError::InvalidPath);
            }
            assert(t != seq![0x2Eu8] && t != seq![0x2Eu8, 0x2Eu8]) by {
                if t == seq![0x2Eu8] {
                    assert(t[0] == 0x2Eu8);
                }
                if t == seq![0x2Eu8, 0x2Eu8] {
                    assert(t[0] == 0x2Eu8 && t[1] == 0x2Eu8);
                }
            }
            let parent = if path.len() > 0 && path[0] == 0x2Fu8 {
                self.root_vnode()
            } else {
                start
            };
            return Ok((parent, leaf));
        }
        assert(t.subrange(0, j as int).last() == slash());
        assert(last_slash(t) == j - 1);
        assert(leaf@ =~= t.subrange(j as int, t.len() as int));
        let is_dot = leaf.len() == 1 && leaf[0] == 0x2Eu8;
        let is_dot_dot = leaf.len() == 2 && leaf[0] == 0x2Eu8 && leaf[1] == 0x2Eu8;
        if leaf.len() == 0 || is_dot || is_dot_dot {
            assert(is_dot ==> leaf@ =~= seq![0x2Eu8]);
            assert(is_dot_dot ==> leaf@ =~= seq![0x2Eu8, 0x2Eu8]);
            return Err(FsError::InvalidPath);
        }
        assert(leaf@ != seq![0x2Eu8] && leaf@ != seq![0x2Eu8, 0x2Eu8]) by {
            if leaf@ == seq![0x2Eu8] {
                assert(leaf@[0] == 0x2Eu8);
            }
            if leaf@ == seq![0x2Eu8, 0x2Eu8] {
                assert(leaf@[0] == 0x2Eu8 && leaf@[1] == 0x2Eu8);
            }
        }
        let parent_path = if j == 1 {
            let v: Vec<u8> = vec![0x2Fu8];
            assert(t.subrange(0, 0).len() == 0);
            assert(v@ =~= seq![slash()]);
            v
        } else {
            let v = slice_range(path, 0, j - 1);
            assert(v@ =~= t.subrange(0, j - 1));
            v
        };
        match self.resolve(start, parent_path.as_slice()) {
            Ok(n) => Ok((n, leaf)),
            Err(e) => Err(e),
        }
    }

    /// The entries that backend `mnt` lists for its directory `dir`.
    fn backend_readdir(&self, mnt: MountId, dir: u64) -> (r: Result<Vec<DirEntry>, FsError>)
        requires
            self.wf(),
            mnt < self.mounts@.len(),
        ensures
            readdir_ok(self.view(), self.sources.pids@, VfsNode { mount: mnt, node: dir }, r),
    {
        match self.mounts[mnt as usize].backend {
            Backend::Ramfs => self.ramfs.readdir(dir as usize),
            Backend::Procfs => self.procfs.readdir(dir, self.sources.pids.as_slice()),
        }
    }

    /// The entries of a directory.
    pub fn readdir_node(&self, dir: VfsNode) -> (r: Result<Vec<DirEntry>, FsError>)
        requires
            self.wf(),
            self.view().valid(dir),
        ensures
            readdir_ok(self.view(), self.sources.pids@, dir, r),
    {
        self.backend_readdir(dir.mount, dir.node)
    }

    /// The entries of the directory a path leads to.
    pub fn readdir_path(&self, cwd: VfsNode, path: &[u8]) -> (r: Result<Vec<DirEntry>, FsError>)
        requires
            self.wf(),
            self.view().valid(cwd),
        ensures
            match self.view().resolve(cwd, path@) {
                Err(e) => r == Err::<Vec<DirEntry>, FsError>(e),
                Ok(n) => readdir_ok(self.view(), self.sources.pids@, n, r),
            },
    {
        let n = match self.resolve(cwd, path) {
            Ok(n) => n,
            Err(e) => return Err(e),
        };
        self.readdir_node(n)
    }

    /// Whether a node is a file or a directory.
    pub fn node_type(&self, node: VfsNode) -> (r: Result<FileKindTag, FsError>)
        requires
            node.mount < self.mounts@.len(),
        ensures
            r == self.view().b_node_type(node.mount, node.node),
    {
        self.backend_node_type(node.mount, node.node)
    }

    /// The absolute path of `node`: the names from the root down to it, each after
    /// a '/', or "/" for the root; a mount's root goes by its mountpoint's name.
    pub fn vnode_to_path(&self, node: VfsNode) -> (r: Result<Vec<u8>, FsError>)
        requires
            self.wf(),
            node.mount < self.mounts@.len(),
        ensures
            match self.view().vnames(node) {
                Err(e) => r == Err::<Vec<u8>, FsError>(e),
                Ok(names) => r is Ok && r->Ok_0@ == path_text(names),
            },
    {
        let root = self.root_vnode();
        let ghost v = self.view();
        if node == root {
            let mut s: Vec<u8> = Vec::new();
            s.push(0x2Fu8);
            assert(s@ =~= seq![slash()]);
            assert(v.vnames(node) == Ok::<Seq<Seq<u8>>, FsError>(Seq::empty()));
            return Ok(s);
        }
        let mut parts: Vec<Vec<u8>> = Vec::new();
        let mut cur = node;
        loop
            invariant_except_break
                match v.vnames(cur) {
                    Err(e) => v.vnames(node) == Err::<Seq<Seq<u8>>, FsError>(e),
                    Ok(up) => v.vnames(node) == Ok::<Seq<Seq<u8>>, FsError>(
                        up + Seq::new(parts@.len(), |k: int| parts@[k]@),
                    ),
                },
            invariant
                self.wf(),
                v == self.view(),
                root == v.root_vnode(),
                cur.mount < v.mounts.len(),
            ensures
                v.vnames(node) == Ok::<Seq<Seq<u8>>, FsError>(Seq::new(parts@.len(), |k: int| parts@[k]@)),
            decreases cur.mount, v.vrank(cur),
        {
            let ghost before = Seq::new(parts@.len(), |k: int| parts@[k]@);
            if cur == root {
                assert(v.vnames(cur) == Ok::<Seq<Seq<u8>>, FsError>(Seq::empty()));
                assert(Seq::<Seq<u8>>::empty() + before =~= before);
                break;
            }
            let m = self.mounts[cur.mount as usize];
            assert(v.mounts[cur.mount as int] == m);
            if cur.node == m.root_node {
                if let Some(mp) = m.mountpoint {
                    assert(cur.mount != 0);
                    assert(mp.mount < cur.mount);
                    cur = mp;
                    continue;
                }
            }
            let name = match self.backend_name(cur.mount, cur.node) {
                Ok(n) => n,
                Err(e) => return Err(e),
            };
            let next = match self.step_parent(cur) {
                Ok(n) => n,
                Err(e) => return Err(e),
            };
            parts.insert(0, name);
            assert(Seq::new(parts@.len(), |k: int| parts@[k]@) =~= seq![name@] + before);
            if next == cur {
                assert(v.vnames(cur) == Ok::<Seq<Seq<u8>>, FsError>(seq![name@]));
                assert(seq![name@] + before =~= Seq::new(parts@.len(), |k: int| parts@[k]@));
                break;
            }
            proof {
                assert(next.mount == cur.mount);
                if v.backend_of(cur.mount) == Backend::Ramfs && (cur.node as usize) > 0 && (cur.node as usize) < v.fs.len() {
                    assert(parent_ok(v.fs, (cur.node as usize) as int));
                }
                assert(v.vrank(next) < v.vrank(cur));
                match v.vnames(next) {
                    Err(e) => {},
                    Ok(up) => {
                        assert(up.push(name@) + before =~= up + (seq![name@] + before));
                    },
                }
            }
            cur = next;
        }
        assert(v.vnames(node) == Ok::<Seq<Seq<u8>>, FsError>(Seq::new(parts@.len(), |k: int| parts@[k]@)));
        Ok(join_path(&parts))
    }
}

/// `create` in the RAM file system's node `d`.
pub open spec fn ram_create(fs: Seq<NodeView>, d: int, name: Seq<u8>) -> (Seq<NodeView>, Result<usize, FsError>) {
    if d >= fs.len() {
        (fs, Err(FsError::NotFound))
    } else if !fs[d].is_dir() {
        (fs, Err(FsError::NotADirectory))
    } else {
        create_in(fs, d, name)
    }
}

/// `mkdir` in the RAM file system's node `d`.
pub open spec fn ram_mkdir(fs: Seq<NodeView>, d: int, name: Seq<u8>) -> (Seq<NodeView>, Result<usize, FsError>) {
    if !fs[d].is_dir() {
        (fs, Err(FsError::NotADirectory))
    } else {
        mkdir_in(fs, d, name)
    }
}

/// A node id of the RAM file system as a tree node of mount `mnt`.
pub open spec fn in_mount(mnt: MountId, r: Result<usize, FsError>) -> Result<VfsNode, FsError> {
    match r {
        Ok(id) => Ok(VfsNode { mount: mnt, node: id as u64 }),
        Err(e) => Err(e),
    }
}

/// `fs2` keeps every node of `fs` with its parent and kind.
pub open spec fn keeps_nodes(fs: Seq<NodeView>, fs2: Seq<NodeView>) -> bool {
    &&& fs2.len() >= fs.len()
    &&& forall|i: int| 0 <= i < fs.len() ==> (#[trigger] fs2[i]).parent() == fs[i].parent() && fs2[i].is_dir() == fs[i].is_dir()
}

impl VfsView {
    /// The same tree with the RAM file system's nodes replaced.
    pub open spec fn with_fs(self, fs: Seq<NodeView>) -> VfsView {
        VfsView { fs, mounts: self.mounts, mps: self.mps }
    }
}

/// Changing the RAM file system while keeping its nodes keeps the tree shape.
proof fn lemma_wf_with_fs(v: VfsView, fs2: Seq<NodeView>)
    requires
        v.wf(),
        fs_wf(fs2),
        fs2.len() < usize::MAX,
        keeps_nodes(v.fs, fs2),
    ensures
        v.with_fs(fs2).wf(),
{
    let w = v.with_fs(fs2);
    assert forall|i: int|
        #![trigger w.mounts[i]]
        1 <= i < w.mounts.len() implies match w.mounts[i].mountpoint {
        Some(mp) => mp.mount < i && w.valid(mp) && w.b_parent(mp.mount, mp.node) matches Ok(Some(_)),
        None => false,
    } by {
        assert(v.mounts[i] == w.mounts[i]);
        if let Some(mp) = v.mounts[i].mountpoint {
            if v.backend_of(mp.mount) == Backend::Ramfs {
                assert(fs2[(mp.node as usize) as int].parent() == v.fs[(mp.node as usize) as int].parent());
            }
        }
    }
    assert forall|i: int|
        #![trigger w.mounts[i]]
        0 <= i < w.mounts.len() && w.mounts[i].backend == Backend::Ramfs implies w.mounts[i].root_node < w.fs.len() by {
        assert(v.mounts[i] == w.mounts[i]);
    }
}

/// Adding a node keeps the others.
proof fn lemma_add_keeps(fs: Seq<NodeView>, dir: int, node: NodeView)
    requires
        0 <= dir < fs.len(),
        fs[dir].is_dir(),
    ensures
        keeps_nodes(fs, crate::fs::ramfs_model::add_node(fs, dir, node)),
{
}

/// Replacing a file's contents keeps the nodes.
proof fn lemma_with_data_keeps(fs: Seq<NodeView>, id: int, d: Seq<u8>)
    requires
        crate::fs::ramfs_model::is_file_node(fs, id),
    ensures
        keeps_nodes(fs, crate::fs::ramfs_model::with_data(fs, id, d)),
{
}

/// "/proc".
pub open spec fn proc_path() -> Seq<u8> {
    seq![0x2Fu8, 0x70u8, 0x72u8, 0x6Fu8, 0x63u8]
}

proof fn lemma_proc_lookup(fs: Seq<NodeView>, fs0: Seq<NodeView>)
    requires
        fs == crate::fs::ramfs_model::mkdir_p_result(fs0, proc_path()).0,
        crate::fs::ramfs_model::resolve_dir(fs, proc_path()) is Ok,
        fs_wf(fs),
    ensures
        ram_lookup(fs, 0, seq![0x70u8, 0x72u8, 0x6Fu8, 0x63u8]) is Ok,
        ({
            let id = entry_of(fs[0].children(), seq![0x70u8, 0x72u8, 0x6Fu8, 0x63u8])->Some_0;
            &&& is_dir_node(fs, id as int)
            &&& fs[id as int].parent() == Some(0usize)
            &&& 0 < id
        }),
{
    let name = seq![0x70u8, 0x72u8, 0x6Fu8, 0x63u8];
    let p = proc_path();
    let e = Seq::<Seq<u8>>::empty();
    let c1 = seq![0x70u8];
    let c2 = seq![0x70u8, 0x72u8];
    let c3 = seq![0x70u8, 0x72u8, 0x6Fu8];
    assert(split_from(p, 5, name, e) == e.push(name));
    assert(c3.push(0x63u8) =~= name);
    assert(split_from(p, 4, c3, e) == split_from(p, 5, name, e));
    assert(c2.push(0x6Fu8) =~= c3);
    assert(split_from(p, 3, c2, e) == split_from(p, 4, c3, e));
    assert(c1.push(0x72u8) =~= c2);
    assert(split_from(p, 2, c1, e) == split_from(p, 3, c2, e));
    assert(Seq::<u8>::empty().push(0x70u8) =~= c1);
    assert(split_from(p, 1, Seq::empty(), e) == split_from(p, 2, c1, e));
    assert(split_from(p, 0, Seq::empty(), e) == split_from(p, 1, Seq::empty(), e));
    assert(path_components(p) =~= seq![name]);
    assert(seq![name].drop_first() =~= Seq::<Seq<u8>>::empty());
    assert(seq![name][0] == name);
    assert(is_absolute(p));
    assert(name.len() == 4);
    assert(name != crate::fs::ramfs_model::dot());
    assert(name != crate::fs::ramfs_model::dot_dot());
    let id = entry_of(fs[0].children(), name)->Some_0;
    crate::fs::ramfs_model::lemma_entry_found(fs[0].children(), name);
    let k = choose|k: int| 0 <= k < fs[0].children().len() && (#[trigger] fs[0].children()[k]).0 == name
        && fs[0].children()[k].1 == id;
    assert(entry_ok(fs, 0, fs[0].children()[k]));
    assert(crate::fs::ramfs_model::walk(fs, id, seq![name].drop_first()) == Ok::<usize, FsError>(id));
    assert(crate::fs::ramfs_model::walk(fs, 0, seq![name]) == Ok::<usize, FsError>(id));
    assert(crate::fs::ramfs_model::resolve_abs(fs, p) == Ok::<usize, FsError>(id));
}

/// A copy of `s[a..b]`.
fn slice_range(s: &[u8], a: usize, b: usize) -> (r: Vec<u8>)
    requires
        a <= b <= s@.len(),
    ensures
        r@ == s@.subrange(a as int, b as int),
{
    let mut v: Vec<u8> = Vec::new();
    let mut k = a;
    while k < b
        invariant
            a <= k <= b <= s@.len(),
            v@ == s@.subrange(a as int, k as int),
        decreases b - k,
    {
        v.push(s[k]);
        k = k + 1;
        assert(v@ =~= s@.subrange(a as int, k as int));
    }
    v
}


impl Vfs {
    /// Makes an empty file at a path; only the RAM file system can be written.
    pub fn create_path(&mut self, cwd: VfsNode, path: &[u8]) -> (r: Result<VfsNode, FsError>)
        requires
            old(self).wf(),
            old(self).view().valid(cwd),
            old(self).view().fs.len() + 1 < usize::MAX,
        ensures
            final(self).wf(),
            final(self).sources == old(self).sources,
            final(self).procfs == old(self).procfs,
            final(self).strace@ == old(self).strace@,
            r is Ok ==> final(self).view().valid(r->Ok_0),
            final(self).view().mounts == old(self).view().mounts && final(self).view().mps == old(self).view().mps,
            match old(self).view().resolve_parent(cwd, path@) {
                Err(e) => r == Err::<VfsNode, FsError>(e) && final(self).view() == old(self).view(),
                Ok((n, leaf)) => match old(self).view().backend_of(n.mount) {
                    Backend::Procfs => r == Err::<VfsNode, FsError>(FsError::PermissionDenied) && final(self).view()
                        == old(self).view(),
                    Backend::Ramfs => {
                        let (fs2, rr) = ram_create(old(self).view().fs, n.node as int, leaf);
                        final(self).view().fs == fs2 && r == in_mount(n.mount, rr)
                    },
                },
            },
    {
        let (parent, leaf) = match self.resolve_parent(cwd, path) {
            Ok(v) => v,
            Err(e) => return Err(e),
        };
        let ghost v0 = self.view();
        match self.mounts[parent.mount as usize].backend {
            Backend::Procfs => {
                let _ = self.procfs.create(parent.node, leaf.as_slice());
                Err(FsError::PermissionDenied)
            },
            Backend::Ramfs => {
                let r = self.ramfs.create(parent.node as usize, leaf.as_slice());
                proof {
                    if is_dir_node(v0.fs, parent.node as int) && r is Ok {
                        let node = NodeView::File { name: leaf@, data: Seq::empty(), parent: Some(parent.node as usize) };
                        lemma_add_keeps(v0.fs, parent.node as int, node);
                    }
                    lemma_wf_with_fs(v0, self.ramfs@);
                }
                match r {
                    Ok(id) => Ok(VfsNode { mount: parent.mount, node: id as u64 }),
                    Err(e) => Err(e),
                }
            },
        }
    }

    /// Makes a directory at a path (or finds the one there); only the RAM file
    /// system can be written.
    pub fn mkdir_path(&mut self, cwd: VfsNode, path: &[u8]) -> (r: Result<VfsNode, FsError>)
        requires
            old(self).wf(),
            old(self).view().valid(cwd),
            old(self).view().fs.len() + 1 < usize::MAX,
        ensures
            final(self).wf(),
            final(self).sources == old(self).sources,
            final(self).procfs == old(self).procfs,
            final(self).view().mounts == old(self).view().mounts && final(self).view().mps == old(self).view().mps,
            match old(self).view().resolve_parent(cwd, path@) {
                Err(e) => r == Err::<VfsNode, FsError>(e) && final(self).view() == old(self).view(),
                Ok((n, leaf)) => match old(self).view().backend_of(n.mount) {
                    Backend::Procfs => r == Err::<VfsNode, FsError>(FsError::PermissionDenied) && final(self).view()
                        == old(self).view(),
                    Backend::Ramfs => {
                        let (fs2, rr) = ram_mkdir(old(self).view().fs, n.node as int, leaf);
                        final(self).view().fs == fs2 && r == in_mount(n.mount, rr)
                    },
                },
            },
    {
        let (parent, leaf) = match self.resolve_parent(cwd, path) {
            Ok(v) => v,
            Err(e) => return Err(e),
        };
        let ghost v0 = self.view();
        match self.mounts[parent.mount as usize].backend {
            Backend::Procfs => {
                let _ = self.procfs.mkdir(parent.node, leaf.as_slice());
                Err(FsError::PermissionDenied)
            },
            Backend::Ramfs => {
                let r = self.ramfs.mkdir(parent.node as usize, leaf.as_slice());
                proof {
                    if v0.fs[parent.node as int].is_dir() && entry_of(v0.fs[parent.node as int].children(), leaf@) is None {
                        let node = NodeView::Dir { name: leaf@, children: Seq::empty(), parent: Some(parent.node as usize) };
                        lemma_add_keeps(v0.fs, parent.node as int, node);
                    }
                    lemma_wf_with_fs(v0, self.ramfs@);
                }
                match r {
                    Ok(id) => Ok(VfsNode { mount: parent.mount, node: id as u64 }),
                    Err(e) => Err(e),
                }
            },
        }
    }

    /// Writes `bytes` at offset `off` of a file; only the RAM file system can be
    /// written.
    pub fn write_at(&mut self, node: VfsNode, off: usize, bytes: &[u8]) -> (r: Result<usize, FsError>)
        requires
            old(self).wf(),
            old(self).view().valid(node),
            off + bytes@.len() <= usize::MAX,
        ensures
            final(self).wf(),
            final(self).sources == old(self).sources,
            final(self).procfs == old(self).procfs,
            final(self).view().mounts == old(self).view().mounts && final(self).view().mps == old(self).view().mps,
            old(self).view().backend_of(node.mount) == Backend::Procfs ==> r == Err::<usize, FsError>(FsError::PermissionDenied)
                && final(self).view() == old(self).view(),
            old(self).view().backend_of(node.mount) == Backend::Ramfs ==> {
                let fs = old(self).view().fs;
                let id = node.node as int;
                &&& fs[id].is_dir() ==> r == Err::<usize, FsError>(FsError::IsADirectory) && final(self).view() == old(self).view()
                &&& !fs[id].is_dir() ==> r == Ok::<usize, FsError>(bytes@.len() as usize) && final(self).view().fs
                    == crate::fs::ramfs_model::with_data(fs, id, crate::fs::ramfs_model::written_at(fs[id].data(), off as int, bytes@))
            },
    {
        let ghost v0 = self.view();
        match self.mounts[node.mount as usize].backend {
            Backend::Procfs => self.procfs.write_at(node.node, off, bytes),
            Backend::Ramfs => {
                let r = self.ramfs.write_at(node.node as usize, off, bytes);
                proof {
                    if !v0.fs[node.node as int].is_dir() {
                        lemma_with_data_keeps(v0.fs, node.node as int, crate::fs::ramfs_model::written_at(
                            v0.fs[node.node as int].data(),
                            off as int,
                            bytes@,
                        ));
                    }
                    lemma_wf_with_fs(v0, self.ramfs@);
                }
                r
            },
        }
    }

    /// The length of a file.
    pub fn file_len(&self, node: VfsNode) -> (r: Result<usize, FsError>)
        requires
            self.wf(),
            self.view().valid(node),
        ensures
            self.view().backend_of(node.mount) == Backend::Procfs ==> r == crate::fs::procfs::proc_len_spec(
                node.node,
                self.sources.free,
                self.sources.total,
                self.sources.ticks,
            ),
            self.view().backend_of(node.mount) == Backend::Ramfs ==> r == (if self.view().fs[node.node as int].is_dir() {
                Err(FsError::IsADirectory)
            } else {
                Ok::<usize, FsError>(self.view().fs[node.node as int].data().len() as usize)
            }),
    {
        match self.mounts[node.mount as usize].backend {
            Backend::Procfs => self.procfs.len(node.node, self.sources.free, self.sources.total, self.sources.ticks),
            Backend::Ramfs => self.ramfs.len(node.node as usize),
        }
    }

    /// The whole contents of a file (reading the trace drains it).
    pub fn read_all(&mut self, node: VfsNode) -> (r: Result<Vec<u8>, FsError>)
        requires
            old(self).wf(),
            old(self).view().valid(node),
        ensures
            final(self).wf(),
            final(self).sources == old(self).sources,
            final(self).procfs == old(self).procfs,
            final(self).view() == old(self).view(),
            old(self).view().backend_of(node.mount) == Backend::Procfs ==> crate::fs::procfs::proc_read_ok(
                node.node,
                old(self).sources.free,
                old(self).sources.total,
                old(self).sources.ticks,
                old(self).strace@,
                final(self).strace@,
                crate::fs::procfs::procs_view(old(self).sources.procs@),
                r,
            ),
            old(self).view().backend_of(node.mount) == Backend::Ramfs ==> final(self).strace@ == old(self).strace@ && {
                let f = old(self).view().fs[node.node as int];
                &&& f.is_dir() ==> r == Err::<Vec<u8>, FsError>(FsError::IsADirectory)
                &&& !f.is_dir() ==> r is Ok && r->Ok_0@ == f.data()
            },
    {
        match self.mounts[node.mount as usize].backend {
            Backend::Procfs => self.procfs.read(
                node.node,
                self.sources.free,
                self.sources.total,
                self.sources.ticks,
                &mut self.strace,
                self.sources.procs.as_slice(),
            ),
            Backend::Ramfs => self.ramfs.read(node.node as usize),
        }
    }

    /// Reads up to `len` bytes at the open file's offset; the file's contents are
    /// read once and kept with the open file.
    pub fn read_at(&mut self, node: VfsNode, openfile: &mut OpenFile, len: usize) -> (r: Result<Vec<u8>, FsError>)
        requires
            old(self).wf(),
            old(self).view().valid(node),
        ensures
            final(self).wf(),
            final(self).sources == old(self).sources,
            final(self).procfs == old(self).procfs,
            final(self).view() == old(self).view(),
            final(openfile).offset == old(openfile).offset,
            final(openfile).kind == old(openfile).kind,
            final(openfile).flags == old(openfile).flags,
            old(openfile).cache is Some ==> r is Ok && final(openfile).cache == old(openfile).cache && final(self).strace@ == old(self).strace@,
            r is Ok ==> final(openfile).cache is Some && {
                let data = final(openfile).cache.unwrap()@;
                let off = old(openfile).offset;
                r->Ok_0@ == (if off >= data.len() {
                    Seq::<u8>::empty()
                } else {
                    data.subrange(off as int, off + (if len <= data.len() - off { len as int } else { data.len() - off }))
                })
            },
            old(openfile).cache is None ==> match old(self).view().backend_of(node.mount) {
                Backend::Procfs => {
                    let rr = if r is Ok { Ok::<Vec<u8>, FsError>(final(openfile).cache.unwrap()) } else { Err(r->Err_0) };
                    crate::fs::procfs::proc_read_ok(
                        node.node,
                        old(self).sources.free,
                        old(self).sources.total,
                        old(self).sources.ticks,
                        old(self).strace@,
                        final(self).strace@,
                        crate::fs::procfs::procs_view(old(self).sources.procs@),
                        rr,
                    )
                },
                Backend::Ramfs => final(self).strace@ == old(self).strace@ && {
                    let f = old(self).view().fs[node.node as int];
                    &&& f.is_dir() ==> r == Err::<Vec<u8>, FsError>(FsError::IsADirectory)
                    &&& !f.is_dir() ==> r is Ok && final(openfile).cache is Some && final(openfile).cache.unwrap()@ == f.data()
                },
            },
    {
        if openfile.cache.is_none() {
            match self.read_all(node) {
                Ok(data) => {
                    openfile.cache = Some(data);
                },
                Err(e) => return Err(e),
            }
        }
        let data = match &openfile.cache {
            Some(d) => d,
            None => return Err(FsError::NotFound),
        };
        if openfile.offset >= data.len() {
            return Ok(Vec::new());
        }
        let avail = data.len() - openfile.offset;
        let n = if len <= avail { len } else { avail };
        Ok(slice_range(data.as_slice(), openfile.offset, openfile.offset + n))
    }
}

} // verus!
