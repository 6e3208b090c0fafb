use vstd::prelude::*;
use crate::fs::{bytes_compare, bytes_eq, copy_bytes, DirEntry};
use crate::fs::ramfs_laws::lemma_mkdir_walk;
use crate::fs::ramfs_model::{
    add_node, create_file_result, create_in, dot, dot_dot, entry_of, entry_ok, fresh_node, fs_wf,
    is_absolute, is_dir_node, is_file_node, last_slash, lemma_add_node_wf, lemma_components_len,
    lemma_entry_at, lemma_entry_found, lemma_with_data_wf, mkdir_in,
    mkdir_p_result, mkdir_walk, only_slashes, parent_and_base, parent_ok, path_components,
    path_names, path_text, resolve_abs, resolve_dir, resolve_file, slash, slash_joined,
    sorted_entries, sorted_pos, sorted_pos_from, split_from, trim_slashes, var_log,
    var_log_messages, walk, with_data, written_at, NodeView,
};
use crate::sys::errors::FsError;
use crate::sys::syscall::FileKindTag;

verus! {

/// A directory's entries: (name, node id), sorted by name.
pub type Children = Vec<(Vec<u8>, usize)>;

#[derive(Debug, Clone)]
pub enum Node {
    File { name: Vec<u8>, data: Vec<u8>, parent: Option<usize> },
    Dir { name: Vec<u8>, children: Children, parent: Option<usize> },
}

pub const ROOT_NODE_ID: usize = 0;

/// A directory's entries with their names as plain byte sequences.
pub open spec fn entries_view(ch: Seq<(Vec<u8>, usize)>) -> Seq<(Seq<u8>, usize)> {
    Seq::new(ch.len(), |i: int| (ch[i].0@, ch[i].1))
}

impl View for Node {
    type V = NodeView;

    open spec fn view(&self) -> NodeView {
        match self {
            Node::File { name, data, parent } => NodeView::File { name: name@, data: data@, parent: *parent },
            Node::Dir { name, children, parent } => NodeView::Dir {
                name: name@,
                children: entries_view(children@),
                parent: *parent,
            },
        }
    }
}

/// A file system held in memory: a vector of nodes, the root directory first.
#[derive(Debug, Clone)]
pub struct Ramfs {
    pub nodes: Vec<Node>,
}

impl View for Ramfs {
    type V = Seq<NodeView>;

    open spec fn view(&self) -> Seq<NodeView> {
        Seq::new(self.nodes@.len(), |i: int| self.nodes@[i]@)
    }
}

/// The node a directory's entries map `name` to.
fn find_entry(ch: &Children, name: &[u8]) -> (r: Option<usize>)
    requires
        sorted_entries(entries_view(ch@)),
    ensures
        r == entry_of(entries_view(ch@), name@),
{
    let ghost ev = entries_view(ch@);
    let mut i: usize = 0;
    while i < ch.len()
        invariant
            ev == entries_view(ch@),
            sorted_entries(ev),
            i <= ch@.len(),
            forall|j: int| 0 <= j < i ==> (#[trigger] ev[j]).0 != name@,
        decreases ch@.len() - i,
    {
        if bytes_eq(ch[i].0.as_slice(), name) {
            proof {
                lemma_entry_at(ev, i as int);
            }
            return Some(ch[i].1);
        }
        i = i + 1;
    }
    None
}

/// Where an entry named `name` goes to keep the entries sorted.
fn entry_pos(ch: &Children, name: &[u8]) -> (r: usize)
    ensures
        r == sorted_pos(entries_view(ch@), name@),
        r <= ch@.len(),
{
    let ghost ev = entries_view(ch@);
    let mut i: usize = 0;
    while i < ch.len()
        invariant
            ev == entries_view(ch@),
            i <= ch@.len(),
            sorted_pos_from(ev, name@, 0) == sorted_pos_from(ev, name@, i as int),
        decreases ch@.len() - i,
    {
        if bytes_compare(name, ch[i].0.as_slice()) < 0 {
            return i;
        }
        i = i + 1;
    }
    i
}

/// The non-empty components of a path, split at '/'.
pub fn split_path(path: &[u8]) -> (r: Vec<Vec<u8>>)
    ensures
        r@.len() == path_components(path@).len(),
        forall|i: int| 0 <= i < r@.len() ==> (#[trigger] r@[i])@ == path_components(path@)[i],
{
    let mut acc: Vec<Vec<u8>> = Vec::new();
    let mut cur: Vec<u8> = Vec::new();
    let mut i: usize = 0;
    assert(Seq::new(acc@.len(), |j: int| acc@[j]@) =~= Seq::<Seq<u8>>::empty());
    assert(cur@ =~= Seq::<u8>::empty());
    while i < path.len()
        invariant
            i <= path@.len(),
            path_components(path@) == split_from(path@, i as int, cur@, Seq::new(acc@.len(), |j: int| acc@[j]@)),
        decreases path@.len() - i,
    {
        let ghost accv = Seq::new(acc@.len(), |j: int| acc@[j]@);
        if path[i] == 0x2Fu8 {
            if cur.len() > 0 {
                let done = cur;
                acc.push(done);
                assert(Seq::new(acc@.len(), |j: int| acc@[j]@) =~= accv.push(done@));
            }
            cur = Vec::new();
            assert(cur@ =~= Seq::<u8>::empty());
        } else {
            cur.push(path[i]);
        }
        i = i + 1;
    }
    let ghost accv = Seq::new(acc@.len(), |j: int| acc@[j]@);
    if cur.len() > 0 {
        let done = cur;
        acc.push(done);
        assert(Seq::new(acc@.len(), |j: int| acc@[j]@) =~= accv.push(done@));
    }
    acc
}

fn is_dot(c: &[u8]) -> (r: bool)
    ensures
        r == (c@ == dot()),
{
    let r = c.len() == 1 && c[0] == 0x2Eu8;
    assert(r ==> c@ =~= dot());
    r
}

fn is_dot_dot(c: &[u8]) -> (r: bool)
    ensures
        r == (c@ == dot_dot()),
{
    let r = c.len() == 2 && c[0] == 0x2Eu8 && c[1] == 0x2Eu8;
    assert(r ==> c@ =~= dot_dot());
    r
}

/// The absolute path made of `parts`, root first: "/" when there is none.
pub(crate) fn join_path(parts: &Vec<Vec<u8>>) -> (s: Vec<u8>)
    ensures
        s@ == path_text(Seq::new(parts@.len(), |k: int| parts@[k]@)),
{
    let ghost names = Seq::new(parts@.len(), |k: int| parts@[k]@);
    if parts.len() == 0 {
        let mut s: Vec<u8> = Vec::new();
        s.push(0x2Fu8);
        assert(s@ =~= seq![slash()]);
        return s;
    }
    let mut s: Vec<u8> = Vec::new();
    let mut k: usize = 0;
    assert(names.subrange(0, 0) =~= Seq::<Seq<u8>>::empty());
    while k < parts.len()
        invariant
            k <= parts@.len(),
            names == Seq::new(parts@.len(), |m: int| parts@[m]@),
            s@ == slash_joined(names.subrange(0, k as int)),
        decreases parts@.len() - k,
    {
        let ghost s0 = s@;
        s.push(0x2Fu8);
        let part = parts[k].as_slice();
        let mut m: usize = 0;
        while m < part.len()
            invariant
                m <= part@.len(),
                s@ == s0 + seq![slash()] + part@.subrange(0, m as int),
            decreases part@.len() - m,
        {
            s.push(part[m]);
            m = m + 1;
            assert(s@ =~= s0 + seq![slash()] + part@.subrange(0, m as int));
        }
        assert(part@.subrange(0, part@.len() as int) =~= part@);
        assert(names.subrange(0, k + 1).drop_last() =~= names.subrange(0, k as int));
        k = k + 1;
    }
    assert(names.subrange(0, k as int) =~= names);
    s
}

impl Ramfs {
    /// The tree shape of the file system (see `fs_wf`).
    pub open spec fn wf(&self) -> bool {
        fs_wf(self@)
    }

    /// How many nodes the file system holds.
    pub(crate) fn node_count(&self) -> (r: usize)
        ensures
            r == self@.len(),
    {
        self.nodes.len()
    }

    /// A file system holding only the root directory "/".
    pub fn new() -> (r: Self)
        ensures
            r.wf(),
            r@ == seq![NodeView::Dir { name: seq![0x2Fu8], children: Seq::empty(), parent: None }],
    {
        let mut name: Vec<u8> = Vec::new();
        name.push(0x2Fu8);
        let mut nodes: Vec<Node> = Vec::new();
        nodes.push(Node::Dir { name, children: Vec::new(), parent: None });
        let r = Ramfs { nodes };
        assert(entries_view(Seq::<(Vec<u8>, usize)>::empty()) =~= Seq::empty());
        assert(r.nodes@[0]@.name() =~= seq![0x2Fu8]);
        assert(r@ =~= seq![NodeView::Dir { name: seq![0x2Fu8], children: Seq::empty(), parent: None }]);
        assert(entries_view(Seq::<(Vec<u8>, usize)>::empty()) =~= Seq::empty());
        r
    }

    pub fn root(&self) -> (r: usize)
        ensures
            r == ROOT_NODE_ID,
    {
        ROOT_NODE_ID
    }

    /// Whether node `id` is a file or a directory.
    pub fn node_type(&self, id: usize) -> (r: Result<FileKindTag, FsError>)
        ensures
            r == (if id < self@.len() {
                Ok::<FileKindTag, FsError>(self@[id as int].tag())
            } else {
                Err(FsError::NotFound)
            }),
    {
        if id >= self.nodes.len() {
            return Err(FsError::NotFound);
        }
        match &self.nodes[id] {
            Node::Dir { .. } => Ok(FileKindTag::Dir),
            Node::File { .. } => Ok(FileKindTag::File),
        }
    }

    /// The parent of node `id`.
    pub fn parent(&self, id: usize) -> (r: Result<Option<usize>, FsError>)
        ensures
            r == (if id < self@.len() {
                Ok::<Option<usize>, FsError>(self@[id as int].parent())
            } else {
                Err(FsError::NotFound)
            }),
    {
        if id >= self.nodes.len() {
            return Err(FsError::NotFound);
        }
        match &self.nodes[id] {
            Node::Dir { parent, .. } => Ok(*parent),
            Node::File { parent, .. } => Ok(*parent),
        }
    }

    /// The name of node `id`.
    pub fn name(&self, id: usize) -> (r: Result<Vec<u8>, FsError>)
        ensures
            id < self@.len() ==> r is Ok && r->Ok_0@ == self@[id as int].name(),
            id >= self@.len() ==> r == Err::<Vec<u8>, FsError>(FsError::NotFound),
    {
        if id >= self.nodes.len() {
            return Err(FsError::NotFound);
        }
        match &self.nodes[id] {
            Node::Dir { name, .. } => Ok(copy_bytes(name.as_slice())),
            Node::File { name, .. } => Ok(copy_bytes(name.as_slice())),
        }
    }

    /// The node that directory `dir` maps `name` to.
    pub fn lookup(&self, dir: usize, name: &[u8]) -> (r: Result<usize, FsError>)
        requires
            self.wf(),
        ensures
            r == (if dir >= self@.len() {
                Err(FsError::NotFound)
            } else if !self@[dir as int].is_dir() {
                Err(FsError::NotADirectory)
            } else {
                match entry_of(self@[dir as int].children(), name@) {
                    Some(id) => Ok::<usize, FsError>(id),
                    None => Err(FsError::NotFound),
                }
            }),
    {
        if dir >= self.nodes.len() {
            return Err(FsError::NotFound);
        }
        assert(self@[dir as int] == self.nodes@[dir as int]@);
        match &self.nodes[dir] {
            Node::Dir { children, .. } => {
                assert(sorted_entries(self@[dir as int].children()));
                match find_entry(children, name) {
                    Some(id) => Ok(id),
                    None => Err(FsError::NotFound),
                }
            },
            Node::File { .. } => Err(FsError::NotADirectory),
        }
    }

    /// The entries of directory `dir`, in name order, with their kinds.
    pub fn readdir(&self, dir: usize) -> (r: Result<Vec<DirEntry>, FsError>)
        requires
            self.wf(),
        ensures
            dir >= self@.len() ==> r == Err::<Vec<DirEntry>, FsError>(FsError::NotFound),
            is_file_node(self@, dir as int) ==> r == Err::<Vec<DirEntry>, FsError>(FsError::NotADirectory),
            is_dir_node(self@, dir as int) ==> r is Ok && {
                let ch = self@[dir as int].children();
                let v = r->Ok_0@;
                &&& v.len() == ch.len()
                &&& forall|i: int| #![trigger v[i]] 0 <= i < v.len() ==> v[i].id == ch[i].1 as u64 && v[i].name@ == ch[i].0
                    && v[i].ftype == self@[ch[i].1 as int].tag()
            },
    {
        if dir >= self.nodes.len() {
            return Err(FsError::NotFound);
        }
        assert(self@[dir as int] == self.nodes@[dir as int]@);
        match &self.nodes[dir] {
            Node::Dir { children, .. } => {
                let ghost ch = self@[dir as int].children();
                let mut out: Vec<DirEntry> = Vec::new();
                let mut i: usize = 0;
                while i < children.len()
                    invariant
                        self.wf(),
                        dir < self@.len(),
                        ch == entries_view(children@),
                        ch == self@[dir as int].children(),
                        i <= children@.len(),
                        out@.len() == i,
                        forall|j: int| #![trigger out@[j]] 0 <= j < i ==> out@[j].id == ch[j].1 as u64 && out@[j].name@ == ch[j].0
                            && out@[j].ftype == self@[ch[j].1 as int].tag(),
                    decreases children@.len() - i,
                {
                    let id = children[i].1;
                    assert(entry_ok(self@, dir as int, ch[i as int]));
                    assert(self@[id as int] == self.nodes@[id as int]@);
                    let ftype = match &self.nodes[id] {
                        Node::Dir { .. } => FileKindTag::Dir,
                        Node::File { .. } => FileKindTag::File,
                    };
                    out.push(DirEntry { id: id as u64, name: copy_bytes(children[i].0.as_slice()), ftype });
                    i = i + 1;
                }
                Ok(out)
            },
            Node::File { .. } => Err(FsError::NotADirectory),
        }
    }

    /// Replaces the contents of file `id`.
    fn set_file_data(&mut self, id: usize, data: Vec<u8>)
        requires
            old(self).wf(),
            is_file_node(old(self)@, id as int),
        ensures
            final(self)@ == with_data(old(self)@, id as int, data@),
            final(self).wf(),
    {
        let node = self.nodes.remove(id);
        let new_node = match node {
            Node::File { name, data: _, parent } => Node::File { name, data, parent },
            Node::Dir { name, children, parent } => Node::Dir { name, children, parent },
        };
        self.nodes.insert(id, new_node);
        proof {
            assert(self.nodes@ =~= old(self).nodes@.update(id as int, new_node));
            assert(old(self)@[id as int] == old(self).nodes@[id as int]@);
            assert(self@ =~= with_data(old(self)@, id as int, data@));
            lemma_with_data_wf(old(self)@, id as int, data@);
        }
    }

    /// Adds `node` as a new entry of directory `dir` and returns its id.
    fn add_child(&mut self, dir: usize, node: Node) -> (id: usize)
        requires
            old(self).wf(),
            is_dir_node(old(self)@, dir as int),
            fresh_node(node@, dir as int),
            entry_of(old(self)@[dir as int].children(), node@.name()) is None,
            old(self)@.len() < usize::MAX,
        ensures
            id == old(self)@.len(),
            final(self)@ == add_node(old(self)@, dir as int, node@),
            final(self).wf(),
    {
        let id = self.nodes.len();
        let name = match &node {
            Node::File { name, .. } => copy_bytes(name.as_slice()),
            Node::Dir { name, .. } => copy_bytes(name.as_slice()),
        };
        assert(self@[dir as int] == self.nodes@[dir as int]@);
        let d = self.nodes.remove(dir);
        let new_d = match d {
            Node::Dir { name: dname, mut children, parent } => {
                let p = entry_pos(&children, name.as_slice());
                let ghost before = children@;
                children.insert(p, (name, id));
                proof {
                    assert(entries_view(children@) =~= entries_view(before).insert(p as int, (node@.name(), id)));
                }
                Node::Dir { name: dname, children, parent }
            },
            Node::File { name, data, parent } => Node::File { name, data, parent },
        };
        self.nodes.insert(dir, new_d);
        self.nodes.push(node);
        proof {
            assert(self.nodes@ =~= old(self).nodes@.update(dir as int, new_d).push(node));
            assert(self@ =~= add_node(old(self)@, dir as int, node@));
            lemma_add_node_wf(old(self)@, dir as int, node@);
        }
        id
    }

    /// Makes directory `name` in directory `dir`, or returns the directory of that
    /// name already there.
    pub fn mkdir(&mut self, dir: usize, name: &[u8]) -> (r: Result<usize, FsError>)
        requires
            old(self).wf(),
            dir < old(self)@.len(),
            old(self)@.len() < usize::MAX,
        ensures
            final(self).wf(),
            !old(self)@[dir as int].is_dir() ==> r == Err::<usize, FsError>(FsError::NotADirectory)
                && final(self)@ == old(self)@,
            old(self)@[dir as int].is_dir() ==> (final(self)@, r) == mkdir_in(old(self)@, dir as int, name@),
    {
        assert(self@[dir as int] == self.nodes@[dir as int]@);
        assert(sorted_entries(self@[dir as int].children()));
        let existing = match &self.nodes[dir] {
            Node::Dir { children, .. } => find_entry(children, name),
            Node::File { .. } => return Err(FsError::NotADirectory),
        };
        match existing {
            Some(id) => {
                proof {
                    lemma_entry_found(self@[dir as int].children(), name@);
                }
                assert(entry_ok(self@, dir as int, (name@, id)));
                assert(self@[id as int] == self.nodes@[id as int]@);
                match &self.nodes[id] {
                    Node::Dir { .. } => Ok(id),
                    Node::File { .. } => Err(FsError::AlreadyExistsFile),
                }
            },
            None => {
                let node = Node::Dir { name: copy_bytes(name), children: Vec::new(), parent: Some(dir) };
                assert(entries_view(Seq::<(Vec<u8>, usize)>::empty()) =~= Seq::empty());
                let id = self.add_child(dir, node);
                Ok(id)
            },
        }
    }

    /// Makes an empty file `name` in directory `dir`.
    pub fn create(&mut self, dir: usize, name: &[u8]) -> (r: Result<usize, FsError>)
        requires
            old(self).wf(),
            old(self)@.len() < usize::MAX,
        ensures
            final(self).wf(),
            dir >= old(self)@.len() ==> r == Err::<usize, FsError>(FsError::NotFound) && final(self)@ == old(self)@,
            is_file_node(old(self)@, dir as int) ==> r == Err::<usize, FsError>(FsError::NotADirectory)
                && final(self)@ == old(self)@,
            is_dir_node(old(self)@, dir as int) ==> (final(self)@, r) == create_in(old(self)@, dir as int, name@),
    {
        if dir >= self.nodes.len() {
            return Err(FsError::NotFound);
        }
        assert(self@[dir as int] == self.nodes@[dir as int]@);
        assert(sorted_entries(self@[dir as int].children()));
        let existing = match &self.nodes[dir] {
            Node::Dir { children, .. } => find_entry(children, name),
            Node::File { .. } => return Err(FsError::NotADirectory),
        };
        match existing {
            Some(id) => {
                proof {
                    lemma_entry_found(self@[dir as int].children(), name@);
                }
                assert(entry_ok(self@, dir as int, (name@, id)));
                assert(self@[id as int] == self.nodes@[id as int]@);
                match &self.nodes[id] {
                    Node::Dir { .. } => Err(FsError::AlreadyExistsDir),
                    Node::File { .. } => Err(FsError::AlreadyExistsFile),
                }
            },
            None => {
                let node = Node::File { name: copy_bytes(name), data: Vec::new(), parent: Some(dir) };
                let id = self.add_child(dir, node);
                Ok(id)
            },
        }
    }

    /// Replaces a file's contents with `bytes`.
    pub fn write_trunc(&mut self, file: usize, bytes: &[u8]) -> (r: Result<usize, FsError>)
        requires
            old(self).wf(),
        ensures
            final(self).wf(),
            file >= old(self)@.len() ==> r == Err::<usize, FsError>(FsError::NotFound) && final(self)@ == old(self)@,
            is_dir_node(old(self)@, file as int) ==> r == Err::<usize, FsError>(FsError::IsADirectory)
                && final(self)@ == old(self)@,
            is_file_node(old(self)@, file as int) ==> r == Ok::<usize, FsError>(bytes@.len() as usize)
                && final(self)@ == with_data(old(self)@, file as int, bytes@),
    {
        if file >= self.nodes.len() {
            return Err(FsError::NotFound);
        }
        assert(self@[file as int] == self.nodes@[file as int]@);
        if let Node::Dir { .. } = &self.nodes[file] {
            return Err(FsError::IsADirectory);
        }
        let data = copy_bytes(bytes);
        self.set_file_data(file, data);
        Ok(bytes.len())
    }

    /// Appends `bytes` to a file.
    pub fn append(&mut self, file: usize, bytes: &[u8]) -> (r: Result<(), FsError>)
        requires
            old(self).wf(),
        ensures
            final(self).wf(),
            file >= old(self)@.len() ==> r == Err::<(), FsError>(FsError::NotFound) && final(self)@ == old(self)@,
            is_dir_node(old(self)@, file as int) ==> r == Err::<(), FsError>(FsError::IsADirectory)
                && final(self)@ == old(self)@,
            is_file_node(old(self)@, file as int) ==> r == Ok::<(), FsError>(())
                && final(self)@ == with_data(old(self)@, file as int, old(self)@[file as int].data() + bytes@),
    {
        if file >= self.nodes.len() {
            return Err(FsError::NotFound);
        }
        assert(self@[file as int] == self.nodes@[file as int]@);
        let mut data = match &self.nodes[file] {
            Node::File { data, .. } => copy_bytes(data.as_slice()),
            Node::Dir { .. } => return Err(FsError::IsADirectory),
        };
        let ghost d0 = data@;
        let mut i: usize = 0;
        while i < bytes.len()
            invariant
                i <= bytes@.len(),
                data@ == d0 + bytes@.subrange(0, i as int),
            decreases bytes@.len() - i,
        {
            data.push(bytes[i]);
            i = i + 1;
            assert(data@ =~= d0 + bytes@.subrange(0, i as int));
        }
        assert(bytes@.subrange(0, bytes@.len() as int) =~= bytes@);
        self.set_file_data(file, data);
        Ok(())
    }

    /// Writes `bytes` at offset `off` of a file, zero-filling any gap, and returns
    /// the number of bytes written.
    pub fn write_at(&mut self, file: usize, off: usize, bytes: &[u8]) -> (r: Result<usize, FsError>)
        requires
            old(self).wf(),
            off + bytes@.len() <= usize::MAX,
        ensures
            final(self).wf(),
            file >= old(self)@.len() ==> r == Err::<usize, FsError>(FsError::NotFound) && final(self)@ == old(self)@,
            is_dir_node(old(self)@, file as int) ==> r == Err::<usize, FsError>(FsError::IsADirectory)
                && final(self)@ == old(self)@,
            is_file_node(old(self)@, file as int) ==> r == Ok::<usize, FsError>(bytes@.len() as usize)
                && final(self)@ == with_data(
                old(self)@,
                file as int,
                written_at(old(self)@[file as int].data(), off as int, bytes@),
            ),
    {
        if file >= self.nodes.len() {
            return Err(FsError::NotFound);
        }
        assert(self@[file as int] == self.nodes@[file as int]@);
        let mut data = match &self.nodes[file] {
            Node::File { data, .. } => copy_bytes(data.as_slice()),
            Node::Dir { .. } => return Err(FsError::IsADirectory),
        };
        let ghost d0 = data@;
        let end = off + bytes.len();
        while data.len() < end
            invariant
                forall|i: int| 0 <= i < d0.len() ==> data@[i] == d0[i],
                forall|i: int| d0.len() <= i < data@.len() ==> data@[i] == 0u8,
                data@.len() >= d0.len(),
                data@.len() <= end || data@.len() == d0.len(),
            decreases end - data@.len(),
        {
            data.push(0u8);
        }
        let ghost d1 = data@;
        let mut i: usize = 0;
        while i < bytes.len()
            invariant
                end == off + bytes@.len(),
                d1.len() >= end,
                d1.len() == if d0.len() >= end { d0.len() } else { end as nat },
                forall|k: int| 0 <= k < d0.len() ==> d1[k] == d0[k],
                forall|k: int| d0.len() <= k < d1.len() ==> d1[k] == 0u8,
                data@.len() == d1.len(),
                i <= bytes@.len(),
                forall|k: int| 0 <= k < data@.len() ==> #[trigger] data@[k] == (if off <= k < off + i {
                    bytes@[k - off]
                } else {
                    d1[k]
                }),
            decreases bytes@.len() - i,
        {
            data.set(off + i, bytes[i]);
            i = i + 1;
        }
        assert(data@ =~= written_at(d0, off as int, bytes@));
        self.set_file_data(file, data);
        Ok(bytes.len())
    }

    /// The contents of a file.
    pub fn read(&self, file: usize) -> (r: Result<Vec<u8>, FsError>)
        ensures
            file >= self@.len() ==> r == Err::<Vec<u8>, FsError>(FsError::NotFound),
            is_dir_node(self@, file as int) ==> r == Err::<Vec<u8>, FsError>(FsError::IsADirectory),
            is_file_node(self@, file as int) ==> r is Ok && r->Ok_0@ == self@[file as int].data(),
    {
        if file >= self.nodes.len() {
            return Err(FsError::NotFound);
        }
        assert(self@[file as int] == self.nodes@[file as int]@);
        match &self.nodes[file] {
            Node::File { data, .. } => Ok(copy_bytes(data.as_slice())),
            Node::Dir { .. } => Err(FsError::IsADirectory),
        }
    }

    /// The contents of a file, borrowed.
    pub fn file_read_borrow(&self, file: usize) -> (r: Result<&[u8], FsError>)
        ensures
            file >= self@.len() ==> r == Err::<&[u8], FsError>(FsError::NotFound),
            is_dir_node(self@, file as int) ==> r == Err::<&[u8], FsError>(FsError::IsADirectory),
            is_file_node(self@, file as int) ==> r is Ok && r->Ok_0@ == self@[file as int].data(),
    {
        if file >= self.nodes.len() {
            return Err(FsError::NotFound);
        }
        assert(self@[file as int] == self.nodes@[file as int]@);
        match &self.nodes[file] {
            Node::File { data, .. } => Ok(data.as_slice()),
            Node::Dir { .. } => Err(FsError::IsADirectory),
        }
    }

    /// The length of a file.
    pub fn len(&self, file: usize) -> (r: Result<usize, FsError>)
        ensures
            file >= self@.len() ==> r == Err::<usize, FsError>(FsError::NotFound),
            is_dir_node(self@, file as int) ==> r == Err::<usize, FsError>(FsError::IsADirectory),
            is_file_node(self@, file as int) ==> r == Ok::<usize, FsError>(self@[file as int].data().len() as usize),
    {
        if file >= self.nodes.len() {
            return Err(FsError::NotFound);
        }
        assert(self@[file as int] == self.nodes@[file as int]@);
        match &self.nodes[file] {
            Node::File { data, .. } => Ok(data.len()),
            Node::Dir { .. } => Err(FsError::IsADirectory),
        }
    }
}

impl Ramfs {
    /// The node an absolute or relative path leads to from node `start`.
    pub fn lookup_from(&self, start: usize, path: &[u8]) -> (r: Result<usize, FsError>)
        requires
            self.wf(),
            start < self@.len(),
        ensures
            r == walk(self@, start, path_components(path@)),
            r is Ok ==> r->Ok_0 < self@.len(),
    {
        let comps = split_path(path);
        let ghost cs = path_components(path@);
        let mut curr = start;
        let mut i: usize = 0;
        assert(cs.skip(0) =~= cs);
        while i < comps.len()
            invariant
                self.wf(),
                curr < self@.len(),
                i <= comps@.len(),
                comps@.len() == cs.len(),
                cs == path_components(path@),
                forall|j: int| 0 <= j < comps@.len() ==> (#[trigger] comps@[j])@ == cs[j],
                walk(self@, start, cs) == walk(self@, curr, cs.skip(i as int)),
            decreases comps@.len() - i,
        {
            let c = comps[i].as_slice();
            proof {
                assert(c@ == cs[i as int]);
                assert(cs.skip(i as int)[0] == cs[i as int]);
                assert(cs.skip(i as int).drop_first() =~= cs.skip(i + 1));
                assert(self@[curr as int] == self.nodes@[curr as int]@);
            }
            if !is_dot(c) {
                match &self.nodes[curr] {
                    Node::File { .. } => return Err(FsError::NotADirectory),
                    Node::Dir { parent, children, .. } => {
                        if is_dot_dot(c) {
                            if curr > 0 {
                                assert(parent_ok(self@, curr as int));
                            }
                            curr = match parent {
                                Some(p) => *p,
                                None => curr,
                            };
                        } else {
                            assert(sorted_entries(self@[curr as int].children()));
                            match find_entry(children, c) {
                                Some(id) => {
                                    proof {
                                        lemma_entry_found(self@[curr as int].children(), c@);
                                    }
                                    curr = id;
                                },
                                None => return Err(FsError::NotFound),
                            }
                        }
                    },
                }
            }
            i = i + 1;
        }
        assert(cs.skip(i as int) =~= Seq::<Seq<u8>>::empty());
        Ok(curr)
    }

    /// The node an absolute path leads to.
    pub fn lookup_abs(&self, path: &[u8]) -> (r: Result<usize, FsError>)
        requires
            self.wf(),
        ensures
            r == resolve_abs(self@, path@),
            r is Ok ==> r->Ok_0 < self@.len(),
    {
        if path.len() == 0 || path[0] != 0x2Fu8 {
            return Err(FsError::InvalidPath);
        }
        self.lookup_from(0, path)
    }

    /// The directory an absolute path leads to.
    pub fn lookup_dir(&self, path: &[u8]) -> (r: Result<usize, FsError>)
        requires
            self.wf(),
        ensures
            r == resolve_dir(self@, path@),
            r is Ok ==> is_dir_node(self@, r->Ok_0 as int),
    {
        let id = match self.lookup_abs(path) {
            Ok(id) => id,
            Err(e) => return Err(e),
        };
        assert(self@[id as int] == self.nodes@[id as int]@);
        match &self.nodes[id] {
            Node::Dir { .. } => Ok(id),
            Node::File { .. } => Err(FsError::NotADirectory),
        }
    }

    /// Node `id` if it is a file.
    pub fn lookup_file_fd(&self, id: usize) -> (r: Result<usize, FsError>)
        requires
            id < self@.len(),
        ensures
            r == (if self@[id as int].is_dir() {
                Err(FsError::IsADirectory)
            } else {
                Ok::<usize, FsError>(id)
            }),
    {
        assert(self@[id as int] == self.nodes@[id as int]@);
        match &self.nodes[id] {
            Node::File { .. } => Ok(id),
            Node::Dir { .. } => Err(FsError::IsADirectory),
        }
    }

    /// The file an absolute path leads to.
    pub fn lookup_file(&self, path: &[u8]) -> (r: Result<usize, FsError>)
        requires
            self.wf(),
        ensures
            r == resolve_file(self@, path@),
            r is Ok ==> is_file_node(self@, r->Ok_0 as int),
    {
        let id = match self.lookup_abs(path) {
            Ok(id) => id,
            Err(e) => return Err(e),
        };
        self.lookup_file_fd(id)
    }

    /// Refuses a path that does not start with '/'.
    fn ensure_abs(&self, path: &[u8]) -> (r: Result<(), FsError>)
        ensures
            r == (if is_absolute(path@) {
                Ok::<(), FsError>(())
            } else {
                Err(FsError::InvalidPath)
            }),
    {
        if path.len() > 0 && path[0] == 0x2Fu8 {
            Ok(())
        } else {
            Err(FsError::InvalidPath)
        }
    }

    /// The parent of directory `id`.
    fn get_parent(&self, id: usize) -> (r: Result<Option<usize>, FsError>)
        requires
            id < self@.len(),
        ensures
            r == (if self@[id as int].is_dir() {
                Ok::<Option<usize>, FsError>(self@[id as int].parent())
            } else {
                Err(FsError::NotADirectory)
            }),
    {
        assert(self@[id as int] == self.nodes@[id as int]@);
        match &self.nodes[id] {
            Node::Dir { parent, .. } => Ok(*parent),
            Node::File { .. } => Err(FsError::NotADirectory),
        }
    }

    /// Makes every directory along an absolute path; "." stays and ".." goes up.
    pub fn mkdir_p(&mut self, path: &[u8]) -> (r: Result<(), FsError>)
        requires
            old(self).wf(),
            old(self)@.len() + path@.len() < usize::MAX,
        ensures
            final(self).wf(),
            (final(self)@, r) == mkdir_p_result(old(self)@, path@),
    {
        if let Err(e) = self.ensure_abs(path) {
            return Err(e);
        }
        let comps = split_path(path);
        let ghost cs = path_components(path@);
        proof {
            lemma_components_len(path@);
        }
        let mut curr: usize = 0;
        let mut i: usize = 0;
        assert(cs.skip(0) =~= cs);
        while i < comps.len()
            invariant
                self.wf(),
                curr < self@.len(),
                i <= comps@.len(),
                comps@.len() == cs.len(),
                cs == path_components(path@),
                is_absolute(path@),
                cs.len() <= path@.len(),
                forall|j: int| 0 <= j < comps@.len() ==> (#[trigger] comps@[j])@ == cs[j],
                mkdir_walk(old(self)@, 0, cs) == mkdir_walk(self@, curr, cs.skip(i as int)),
                self@.len() <= old(self)@.len() + i,
                old(self)@.len() + path@.len() < usize::MAX,
            decreases comps@.len() - i,
        {
            let c = comps[i].as_slice();
            proof {
                assert(c@ == cs[i as int]);
                assert(cs.skip(i as int)[0] == cs[i as int]);
                assert(cs.skip(i as int).drop_first() =~= cs.skip(i + 1));
            }
            if !is_dot(c) {
                if is_dot_dot(c) {
                    match self.get_parent(curr) {
                        Ok(p) => {
                            if curr > 0 {
                                assert(parent_ok(self@, curr as int));
                            }
                            curr = match p {
                                Some(v) => v,
                                None => 0,
                            };
                        },
                        Err(e) => return Err(e),
                    }
                } else {
                    assert(self@[curr as int] == self.nodes@[curr as int]@);
                    match self.get_or_create_dir_child(curr, c) {
                        Ok(id) => {
                            curr = id;
                        },
                        Err(e) => return Err(e),
                    }
                }
            }
            i = i + 1;
        }
        assert(cs.skip(i as int) =~= Seq::<Seq<u8>>::empty());
        Ok(())
    }

    /// Enters directory `name` of directory `parent`, making it if needed.
    fn get_or_create_dir_child(&mut self, parent: usize, name: &[u8]) -> (r: Result<usize, FsError>)
        requires
            old(self).wf(),
            parent < old(self)@.len(),
            old(self)@.len() < usize::MAX,
        ensures
            final(self).wf(),
            !old(self)@[parent as int].is_dir() ==> r == Err::<usize, FsError>(FsError::NotADirectory)
                && final(self)@ == old(self)@,
            old(self)@[parent as int].is_dir() ==> (final(self)@, r) == mkdir_in(old(self)@, parent as int, name@),
            final(self)@.len() <= old(self)@.len() + 1,
            r is Ok ==> r->Ok_0 < final(self)@.len(),
    {
        self.mkdir(parent, name)
    }

    /// Splits an absolute path into its parent directory and last component.
    pub(crate) fn split_parent_base(path: &[u8]) -> (r: Result<(Vec<u8>, Vec<u8>), FsError>)
        requires
            !only_slashes(path@),
        ensures
            match parent_and_base(path@) {
                Ok((parent, base)) => r is Ok && r->Ok_0.0@ == parent && r->Ok_0.1@ == base,
                Err(e) => r == Err::<(Vec<u8>, Vec<u8>), FsError>(e),
            },
    {
        if path.len() == 0 || path[0] != 0x2Fu8 {
            return Err(FsError::InvalidPath);
        }
        if path.len() == 1 {
            assert(path@ =~= seq![slash()]);
            return Err(FsError::InvalidPath);
        }
        assert(path@ != seq![slash()]);
        let ghost p = path@;
        let mut end = path.len();
        assert(p.subrange(0, end as int) =~= p);
        while end > 0 && path[end - 1] == 0x2Fu8
            invariant
                end <= p.len(),
                p == path@,
                trim_slashes(p) == trim_slashes(p.subrange(0, end as int)),
                forall|k: int| end <= k < p.len() ==> p[k] == slash(),
            decreases end,
        {
            assert(p.subrange(0, end as int).drop_last() =~= p.subrange(0, end - 1));
            end = end - 1;
        }
        if end == 0 {
            assert(only_slashes(p));
        }
        let ghost t = p.subrange(0, end as int);
        assert(trim_slashes(t) == t);
        let mut j = end - 1;
        assert(t.subrange(0, j + 1) =~= t);
        while j > 0 && path[j] != 0x2Fu8
            invariant
                j < end,
                end <= p.len(),
                p == path@,
                t == p.subrange(0, end as int),
                last_slash(t) == last_slash(t.subrange(0, j + 1)),
            decreases j,
        {
            assert(t.subrange(0, j + 1).drop_last() =~= t.subrange(0, j as int));
            j = j - 1;
        }
        assert(t.subrange(0, j + 1).last() == slash());
        assert(last_slash(t) == j);
        let mut parent: Vec<u8> = Vec::new();
        if j == 0 {
            parent.push(0x2Fu8);
            assert(parent@ =~= seq![slash()]);
        } else {
            let mut k: usize = 0;
            while k < j
                invariant
                    k <= j,
                    j < end,
                    end <= p.len(),
                    p == path@,
                    parent@ == p.subrange(0, k as int),
                decreases j - k,
            {
                parent.push(path[k]);
                k = k + 1;
                assert(parent@ =~= p.subrange(0, k as int));
            }
            assert(t.subrange(0, j as int) =~= parent@);
        }
        let mut base: Vec<u8> = Vec::new();
        let mut k: usize = j + 1;
        while k < end
            invariant
                j < k <= end,
                end <= p.len(),
                p == path@,
                base@ == p.subrange(j + 1, k as int),
            decreases end - k,
        {
            base.push(path[k]);
            k = k + 1;
            assert(base@ =~= p.subrange(j + 1, k as int));
        }
        assert(t.subrange(j + 1, t.len() as int) =~= base@);
        if base.len() == 0 {
            return Err(FsError::InvalidPath);
        }
        Ok((parent, base))
    }

    /// Makes an empty file at an absolute path whose parent directory exists.
    pub fn create_file(&mut self, path: &[u8]) -> (r: Result<(), FsError>)
        requires
            old(self).wf(),
            old(self)@.len() < usize::MAX,
            !only_slashes(path@),
        ensures
            final(self).wf(),
            (final(self)@, r) == create_file_result(old(self)@, path@),
    {
        if let Err(e) = self.ensure_abs(path) {
            return Err(e);
        }
        let (parent_path, fname) = match Self::split_parent_base(path) {
            Ok(v) => v,
            Err(e) => return Err(e),
        };
        let parent_id = match self.lookup_dir(parent_path.as_slice()) {
            Ok(id) => id,
            Err(e) => return Err(e),
        };
        match self.create(parent_id, fname.as_slice()) {
            Ok(_) => Ok(()),
            Err(e) => Err(e),
        }
    }

    /// Replaces the contents of the file at an absolute path.
    pub fn write_file_from_path(&mut self, path: &[u8], bytes: &[u8]) -> (r: Result<(), FsError>)
        requires
            old(self).wf(),
        ensures
            final(self).wf(),
            match resolve_file(old(self)@, path@) {
                Ok(id) => r == Ok::<(), FsError>(()) && final(self)@ == with_data(old(self)@, id as int, bytes@),
                Err(e) => r == Err::<(), FsError>(e) && final(self)@ == old(self)@,
            },
    {
        let id = match self.lookup_file(path) {
            Ok(id) => id,
            Err(e) => return Err(e),
        };
        match self.write_trunc(id, bytes) {
            Ok(_) => Ok(()),
            Err(e) => Err(e),
        }
    }

    /// The absolute path of node `id`.
    pub fn path_of(&self, id: usize) -> (r: Vec<u8>)
        requires
            self.wf(),
            id < self@.len(),
        ensures
            r@ == path_text(path_names(self@, id as int)),
    {
        if id == 0 {
            let mut s: Vec<u8> = Vec::new();
            s.push(0x2Fu8);
            assert(s@ =~= seq![slash()]);
            return s;
        }
        let mut parts: Vec<Vec<u8>> = Vec::new();
        let mut cur = id;
        while cur != 0
            invariant
                self.wf(),
                cur < self@.len(),
                path_names(self@, id as int) =~= path_names(self@, cur as int) + Seq::new(
                    parts@.len(),
                    |k: int| parts@[k]@,
                ),
            decreases cur,
        {
            assert(self@[cur as int] == self.nodes@[cur as int]@);
            assert(parent_ok(self@, cur as int));
            let ghost before = Seq::new(parts@.len(), |k: int| parts@[k]@);
            let (name, parent) = match &self.nodes[cur] {
                Node::Dir { name, parent, .. } => (copy_bytes(name.as_slice()), *parent),
                Node::File { name, parent, .. } => (copy_bytes(name.as_slice()), *parent),
            };
            parts.insert(0, name);
            assert(Seq::new(parts@.len(), |k: int| parts@[k]@) =~= seq![self@[cur as int].name()] + before);
            cur = match parent {
                Some(p) => p,
                None => 0,
            };
        }
        assert(path_names(self@, id as int) =~= Seq::new(parts@.len(), |k: int| parts@[k]@));
        join_path(&parts)
    }

    /// Makes "/var/log/messages".
    pub fn create_kernel_files(&mut self) -> (r: Result<(), FsError>)
        requires
            old(self).wf(),
            old(self)@.len() + 9 < usize::MAX,
        ensures
            final(self).wf(),
            ({
                let (fs1, r1) = mkdir_p_result(old(self)@, var_log());
                match r1 {
                    Err(e) => final(self)@ == fs1 && r == Err::<(), FsError>(e),
                    Ok(_) => (final(self)@, r) == create_file_result(fs1, var_log_messages()),
                }
            }),
    {
        let dir: Vec<u8> = vec![0x2Fu8, 0x76u8, 0x61u8, 0x72u8, 0x2Fu8, 0x6Cu8, 0x6Fu8, 0x67u8];
        let file: Vec<u8> = vec![
            0x2Fu8, 0x76u8, 0x61u8, 0x72u8, 0x2Fu8, 0x6Cu8, 0x6Fu8, 0x67u8, 0x2Fu8,
            0x6Du8, 0x65u8, 0x73u8, 0x73u8, 0x61u8, 0x67u8, 0x65u8, 0x73u8,
        ];
        assert(dir@ =~= var_log());
        assert(file@ =~= var_log_messages());
        let ghost fs0 = self@;
        match self.mkdir_p(dir.as_slice()) {
            Ok(_) => {},
            Err(e) => return Err(e),
        }
        proof {
            lemma_components_len(var_log());
            lemma_mkdir_walk(fs0, 0, path_components(var_log()));
        }
        if file[1] == 0x2Fu8 {
            assert(false);
        }
        assert(!only_slashes(file@));
        self.create_file(file.as_slice())
    }
}

} // verus!
