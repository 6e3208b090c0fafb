use vstd::prelude::*;
use crate::fs::{bytes_lt, lemma_lt_irreflexive, lemma_lt_total, lemma_lt_transitive};
use crate::sys::errors::FsError;
use crate::sys::syscall::FileKindTag;

verus! {

/// What a node of the in-memory file system holds, as plain values.
pub enum NodeView {
    File { name: Seq<u8>, data: Seq<u8>, parent: Option<usize> },
    Dir { name: Seq<u8>, children: Seq<(Seq<u8>, usize)>, parent: Option<usize> },
}

impl NodeView {
    pub open spec fn is_dir(self) -> bool {
        self is Dir
    }

    pub open spec fn name(self) -> Seq<u8> {
        match self {
            NodeView::File { name, .. } => name,
            NodeView::Dir { name, .. } => name,
        }
    }

    pub open spec fn parent(self) -> Option<usize> {
        match self {
            NodeView::File { parent, .. } => parent,
            NodeView::Dir { parent, .. } => parent,
        }
    }

    /// A directory's entries, (name, node), sorted by name; none for a file.
    pub open spec fn children(self) -> Seq<(Seq<u8>, usize)> {
        match self {
            NodeView::Dir { children, .. } => children,
            NodeView::File { .. } => Seq::empty(),
        }
    }

    /// A file's contents; none for a directory.
    pub open spec fn data(self) -> Seq<u8> {
        match self {
            NodeView::File { data, .. } => data,
            NodeView::Dir { .. } => Seq::empty(),
        }
    }

    pub open spec fn tag(self) -> FileKindTag {
        if self.is_dir() {
            FileKindTag::Dir
        } else {
            FileKindTag::File
        }
    }
}

/// Entries strictly sorted by name.
pub open spec fn sorted_entries(ch: Seq<(Seq<u8>, usize)>) -> bool {
    forall|i: int, j: int| 0 <= i < j < ch.len() ==> bytes_lt(#[trigger] ch[i].0, #[trigger] ch[j].0)
}

/// The node that a directory's entries map `name` to, if any.
pub open spec fn entry_of(ch: Seq<(Seq<u8>, usize)>, name: Seq<u8>) -> Option<usize> {
    if exists|i: int| 0 <= i < ch.len() && (#[trigger] ch[i]).0 == name {
        Some(ch[choose|i: int| 0 <= i < ch.len() && (#[trigger] ch[i]).0 == name].1)
    } else {
        None
    }
}

/// Node `i` has an earlier directory as parent (the root has none).
pub open spec fn parent_ok(fs: Seq<NodeView>, i: int) -> bool {
    match fs[i].parent() {
        Some(p) => p < i && fs[p as int].is_dir(),
        None => false,
    }
}

/// Entry `c` of directory `i` names a later node whose parent is `i`.
pub open spec fn entry_ok(fs: Seq<NodeView>, i: int, c: (Seq<u8>, usize)) -> bool {
    &&& 0 < c.1 < fs.len()
    &&& fs[c.1 as int].parent() == Some(i as usize)
    &&& fs[c.1 as int].name() == c.0
}

/// The tree shape of the file system: the root directory first, every other
/// node below an earlier directory, each directory's entries sorted by name and
/// naming their nodes.
pub open spec fn fs_wf(fs: Seq<NodeView>) -> bool {
    &&& fs.len() > 0
    &&& fs[0].is_dir()
    &&& fs[0].parent() is None
    &&& forall|i: int| 0 < i < fs.len() ==> parent_ok(fs, i)
    &&& forall|i: int| 0 <= i < fs.len() ==> sorted_entries(#[trigger] fs[i].children())
    &&& forall|i: int, k: int|
        #![trigger fs[i].children()[k]]
        0 <= i < fs.len() && 0 <= k < fs[i].children().len() ==> entry_ok(fs, i, fs[i].children()[k])
    &&& forall|i: int| 0 < i < fs.len() ==> #[trigger] listed(fs, i)
}

/// Node `i` is entered under its name in its parent directory.
pub open spec fn listed(fs: Seq<NodeView>, i: int) -> bool {
    entry_of(fs[fs[i].parent().unwrap() as int].children(), fs[i].name()) == Some(i as usize)
}

/// Node `id` exists and is a file.
pub open spec fn is_file_node(fs: Seq<NodeView>, id: int) -> bool {
    0 <= id < fs.len() && !fs[id].is_dir()
}

/// Node `id` exists and is a directory.
pub open spec fn is_dir_node(fs: Seq<NodeView>, id: int) -> bool {
    0 <= id < fs.len() && fs[id].is_dir()
}

/// The file system with the contents of file `id` replaced by `d`.
pub open spec fn with_data(fs: Seq<NodeView>, id: int, d: Seq<u8>) -> Seq<NodeView> {
    fs.update(id, NodeView::File { name: fs[id].name(), data: d, parent: fs[id].parent() })
}

/// `d` after writing `bytes` at offset `off`: zeros fill any gap, the file grows
/// as needed.
pub open spec fn written_at(d: Seq<u8>, off: int, bytes: Seq<u8>) -> Seq<u8> {
    let end = off + bytes.len();
    Seq::new(
        (if d.len() >= end { d.len() as int } else { end }) as nat,
        |i: int|
            if off <= i < end {
                bytes[i - off]
            } else if i < d.len() {
                d[i]
            } else {
                0u8
            },
    )
}

/// The first index from `i` on whose name sorts after `name`, or the length.
pub open spec fn sorted_pos_from(ch: Seq<(Seq<u8>, usize)>, name: Seq<u8>, i: int) -> int
    decreases ch.len() - i,
{
    if i >= ch.len() {
        ch.len() as int
    } else if bytes_lt(name, ch[i].0) {
        i
    } else {
        sorted_pos_from(ch, name, i + 1)
    }
}

/// Where an entry named `name` goes to keep the entries sorted.
pub open spec fn sorted_pos(ch: Seq<(Seq<u8>, usize)>, name: Seq<u8>) -> int {
    sorted_pos_from(ch, name, 0)
}

/// The entries with (name, id) added in sorted place.
pub open spec fn with_entry(ch: Seq<(Seq<u8>, usize)>, name: Seq<u8>, id: usize) -> Seq<(Seq<u8>, usize)> {
    ch.insert(sorted_pos(ch, name), (name, id))
}

/// The file system with `node` appended and entered in directory `dir`.
pub open spec fn add_node(fs: Seq<NodeView>, dir: int, node: NodeView) -> Seq<NodeView> {
    let d = fs[dir];
    fs.update(
        dir,
        NodeView::Dir {
            name: d.name(),
            children: with_entry(d.children(), node.name(), fs.len() as usize),
            parent: d.parent(),
        },
    ).push(node)
}

/// A fresh node that can be added below `dir`: an empty file or directory.
pub open spec fn fresh_node(node: NodeView, dir: int) -> bool {
    &&& node.parent() == Some(dir as usize)
    &&& node.children().len() == 0
}

/// `mkdir` in directory `dir`: an existing directory of that name is returned, an
/// existing file is refused, otherwise a new empty directory is made.
pub open spec fn mkdir_in(fs: Seq<NodeView>, dir: int, name: Seq<u8>) -> (Seq<NodeView>, Result<usize, FsError>) {
    match entry_of(fs[dir].children(), name) {
        Some(id) => (
            fs,
            if fs[id as int].is_dir() {
                Ok(id)
            } else {
                Err(FsError::AlreadyExistsFile)
            },
        ),
        None => (
            add_node(fs, dir, NodeView::Dir { name, children: Seq::empty(), parent: Some(dir as usize) }),
            Ok(fs.len() as usize),
        ),
    }
}

/// `create` in directory `dir`: refused if the name exists, otherwise a new empty
/// file is made.
pub open spec fn create_in(fs: Seq<NodeView>, dir: int, name: Seq<u8>) -> (Seq<NodeView>, Result<usize, FsError>) {
    match entry_of(fs[dir].children(), name) {
        Some(id) => (
            fs,
            if fs[id as int].is_dir() {
                Err(FsError::AlreadyExistsDir)
            } else {
                Err(FsError::AlreadyExistsFile)
            },
        ),
        None => (
            add_node(fs, dir, NodeView::File { name, data: Seq::empty(), parent: Some(dir as usize) }),
            Ok(fs.len() as usize),
        ),
    }
}

pub open spec fn slash() -> u8 {
    0x2Fu8
}

pub open spec fn dot() -> Seq<u8> {
    seq![0x2Eu8]
}

pub open spec fn dot_dot() -> Seq<u8> {
    seq![0x2Eu8, 0x2Eu8]
}

/// The non-empty components of `p[i..]`, given the component `cur` read so far
/// and the components `acc` before it.
pub open spec fn split_from(p: Seq<u8>, i: int, cur: Seq<u8>, acc: Seq<Seq<u8>>) -> Seq<Seq<u8>>
    decreases p.len() - i,
{
    if i >= p.len() {
        if cur.len() > 0 {
            acc.push(cur)
        } else {
            acc
        }
    } else if p[i] == slash() {
        split_from(p, i + 1, Seq::empty(), if cur.len() > 0 { acc.push(cur) } else { acc })
    } else {
        split_from(p, i + 1, cur.push(p[i]), acc)
    }
}

/// The non-empty components of a path, split at '/'.
pub open spec fn path_components(p: Seq<u8>) -> Seq<Seq<u8>> {
    split_from(p, 0, Seq::empty(), Seq::empty())
}

/// The path starts with '/'.
pub open spec fn is_absolute(p: Seq<u8>) -> bool {
    p.len() > 0 && p[0] == slash()
}

/// Resolving the components `comps` from node `curr`: "." stays, ".." goes to the
/// parent (the root stays), a name goes to the entry of that name.
pub open spec fn walk(fs: Seq<NodeView>, curr: usize, comps: Seq<Seq<u8>>) -> Result<usize, FsError>
    decreases comps.len(),
{
    if comps.len() == 0 {
        Ok(curr)
    } else {
        let c = comps[0];
        let rest = comps.drop_first();
        if c == dot() {
            walk(fs, curr, rest)
        } else if !fs[curr as int].is_dir() {
            Err(FsError::NotADirectory)
        } else if c == dot_dot() {
            walk(fs, fs[curr as int].parent().unwrap_or(curr), rest)
        } else {
            match entry_of(fs[curr as int].children(), c) {
                Some(id) => walk(fs, id, rest),
                None => Err(FsError::NotFound),
            }
        }
    }
}

/// Making every directory along `comps` from `curr`: "." stays, ".." goes to the
/// parent (or the root), a name is entered or made as a directory.
pub open spec fn mkdir_walk(fs: Seq<NodeView>, curr: usize, comps: Seq<Seq<u8>>) -> (Seq<NodeView>, Result<(), FsError>)
    decreases comps.len(),
{
    if comps.len() == 0 {
        (fs, Ok(()))
    } else {
        let c = comps[0];
        let rest = comps.drop_first();
        if c == dot() {
            mkdir_walk(fs, curr, rest)
        } else if !fs[curr as int].is_dir() {
            (fs, Err(FsError::NotADirectory))
        } else if c == dot_dot() {
            mkdir_walk(fs, fs[curr as int].parent().unwrap_or(0), rest)
        } else {
            let (fs2, r) = mkdir_in(fs, curr as int, c);
            match r {
                Ok(id) => mkdir_walk(fs2, id, rest),
                Err(e) => (fs2, Err(e)),
            }
        }
    }
}

/// `p` without its trailing '/' bytes.
pub open spec fn trim_slashes(p: Seq<u8>) -> Seq<u8>
    decreases p.len(),
{
    if p.len() > 0 && p.last() == slash() {
        trim_slashes(p.drop_last())
    } else {
        p
    }
}

/// The index of the last '/' in `p`, or -1.
pub open spec fn last_slash(p: Seq<u8>) -> int
    decreases p.len(),
{
    if p.len() == 0 {
        -1
    } else if p.last() == slash() {
        p.len() - 1
    } else {
        last_slash(p.drop_last())
    }
}

/// The path has at least two bytes and all are '/'.
pub open spec fn only_slashes(p: Seq<u8>) -> bool {
    p.len() >= 2 && forall|i: int| 0 <= i < p.len() ==> p[i] == slash()
}

/// An absolute path split into its parent directory and its last component.
pub open spec fn parent_and_base(p: Seq<u8>) -> Result<(Seq<u8>, Seq<u8>), FsError> {
    if !is_absolute(p) || p == seq![slash()] {
        Err(FsError::InvalidPath)
    } else {
        let t = trim_slashes(p);
        let j = last_slash(t);
        let parent = t.subrange(0, j);
        let base = t.subrange(j + 1, t.len() as int);
        if base.len() == 0 {
            Err(FsError::InvalidPath)
        } else {
            Ok((if parent.len() == 0 { seq![slash()] } else { parent }, base))
        }
    }
}

/// The names from the root down to node `id`.
pub open spec fn path_names(fs: Seq<NodeView>, id: int) -> Seq<Seq<u8>>
    decreases id,
{
    if id <= 0 || id >= fs.len() {
        Seq::empty()
    } else {
        let p = fs[id].parent().unwrap_or(0) as int;
        if p < id {
            path_names(fs, p).push(fs[id].name())
        } else {
            seq![fs[id].name()]
        }
    }
}

/// Each name preceded by '/'.
pub open spec fn slash_joined(names: Seq<Seq<u8>>) -> Seq<u8>
    decreases names.len(),
{
    if names.len() == 0 {
        Seq::empty()
    } else {
        slash_joined(names.drop_last()) + seq![slash()] + names.last()
    }
}

/// The absolute path of a node: "/" for the root.
pub open spec fn path_text(names: Seq<Seq<u8>>) -> Seq<u8> {
    if names.len() == 0 {
        seq![slash()]
    } else {
        slash_joined(names)
    }
}

// ---------------------------------------------------------------------------
// Lemmas on sorted entries.

/// In sorted entries each name occurs once, so `entry_of` gives its node.
pub proof fn lemma_entry_at(ch: Seq<(Seq<u8>, usize)>, i: int)
    requires
        sorted_entries(ch),
        0 <= i < ch.len(),
    ensures
        entry_of(ch, ch[i].0) == Some(ch[i].1),
{
    let name = ch[i].0;
    assert(exists|j: int| 0 <= j < ch.len() && (#[trigger] ch[j]).0 == name);
    let j = choose|j: int| 0 <= j < ch.len() && (#[trigger] ch[j]).0 == name;
    if j < i {
        assert(bytes_lt(ch[j].0, ch[i].0));
        lemma_lt_irreflexive(name);
    } else if i < j {
        assert(bytes_lt(ch[i].0, ch[j].0));
        lemma_lt_irreflexive(name);
    }
}

/// What `entry_of` finds is an entry.
pub proof fn lemma_entry_found(ch: Seq<(Seq<u8>, usize)>, name: Seq<u8>)
    requires
        entry_of(ch, name) is Some,
    ensures
        exists|i: int| 0 <= i < ch.len() && (#[trigger] ch[i]).0 == name && ch[i].1 == entry_of(ch, name)->Some_0,
{
}

proof fn lemma_sorted_pos_from(ch: Seq<(Seq<u8>, usize)>, name: Seq<u8>, i: int)
    requires
        0 <= i <= ch.len(),
    ensures
        i <= sorted_pos_from(ch, name, i) <= ch.len(),
        forall|j: int| i <= j < sorted_pos_from(ch, name, i) ==> !bytes_lt(name, #[trigger] ch[j].0),
        sorted_pos_from(ch, name, i) < ch.len() ==> bytes_lt(name, ch[sorted_pos_from(ch, name, i)].0),
    decreases ch.len() - i,
{
    if i < ch.len() && !bytes_lt(name, ch[i].0) {
        lemma_sorted_pos_from(ch, name, i + 1);
    }
}

/// Adding a new name in sorted place keeps the entries sorted, and the entries
/// then map the new name to its node and every other name as before.
pub proof fn lemma_with_entry(ch: Seq<(Seq<u8>, usize)>, name: Seq<u8>, id: usize)
    requires
        sorted_entries(ch),
        entry_of(ch, name) is None,
    ensures
        0 <= sorted_pos(ch, name) <= ch.len(),
        with_entry(ch, name, id) == ch.insert(sorted_pos(ch, name), (name, id)),
        sorted_entries(with_entry(ch, name, id)),
        forall|k: Seq<u8>| #[trigger] entry_of(with_entry(ch, name, id), k) == if k == name {
            Some(id)
        } else {
            entry_of(ch, k)
        },
{
    let p = sorted_pos(ch, name);
    lemma_sorted_pos_from(ch, name, 0);
    let r = with_entry(ch, name, id);
    assert forall|j: int| 0 <= j < ch.len() implies (j < p ==> bytes_lt(#[trigger] ch[j].0, name)) && (j
        >= p ==> bytes_lt(name, ch[j].0)) by {
        if ch[j].0 == name {
            assert(exists|i: int| 0 <= i < ch.len() && (#[trigger] ch[i]).0 == name);
        }
        if j < p {
            lemma_lt_total(ch[j].0, name);
        } else if j > p {
            lemma_lt_transitive(name, ch[p].0, ch[j].0);
        }
    }
    assert forall|i: int, j: int| 0 <= i < j < r.len() implies bytes_lt(#[trigger] r[i].0, #[trigger] r[j].0) by {
        if j < p {
            assert(r[i] == ch[i] && r[j] == ch[j]);
        } else if j == p {
            assert(r[i] == ch[i]);
        } else if i < p {
            assert(r[i] == ch[i] && r[j] == ch[j - 1]);
            lemma_lt_transitive(ch[i].0, name, ch[j - 1].0);
        } else if i == p {
            assert(r[j] == ch[j - 1]);
        } else {
            assert(r[i] == ch[i - 1] && r[j] == ch[j - 1]);
        }
    }
    assert forall|k: Seq<u8>| #[trigger] entry_of(r, k) == if k == name {
        Some(id)
    } else {
        entry_of(ch, k)
    } by {
        if k == name {
            assert(r[p] == (name, id));
            lemma_entry_at(r, p);
        } else if entry_of(ch, k) is Some {
            let i = choose|i: int| 0 <= i < ch.len() && (#[trigger] ch[i]).0 == k;
            lemma_entry_at(ch, i);
            let i2 = if i < p { i } else { i + 1 };
            assert(r[i2] == ch[i]);
            lemma_entry_at(r, i2);
        } else {
            if exists|i: int| 0 <= i < r.len() && (#[trigger] r[i]).0 == k {
                let i = choose|i: int| 0 <= i < r.len() && (#[trigger] r[i]).0 == k;
                if i < p {
                    assert(r[i] == ch[i]);
                } else if i > p {
                    assert(r[i] == ch[i - 1]);
                }
            }
        }
    }
}

/// Replacing a file's contents keeps the tree shape.
pub proof fn lemma_with_data_wf(fs: Seq<NodeView>, id: int, d: Seq<u8>)
    requires
        fs_wf(fs),
        is_file_node(fs, id),
    ensures
        fs_wf(with_data(fs, id, d)),
        with_data(fs, id, d).len() == fs.len(),
{
    let r = with_data(fs, id, d);
    assert forall|i: int| 0 < i < r.len() implies parent_ok(r, i) by {
        assert(parent_ok(fs, i));
    }
    assert forall|i: int| 0 <= i < r.len() implies sorted_entries(#[trigger] r[i].children()) by {
        assert(sorted_entries(fs[i].children()));
    }
    assert forall|i: int, k: int|
        #![trigger r[i].children()[k]]
        0 <= i < r.len() && 0 <= k < r[i].children().len() implies entry_ok(r, i, r[i].children()[k]) by {
        assert(r[i] == fs[i]);
        assert(entry_ok(fs, i, fs[i].children()[k]));
    }
    assert forall|i: int| 0 < i < r.len() implies #[trigger] listed(r, i) by {
        assert(listed(fs, i));
        assert(parent_ok(fs, i));
        let q = fs[i].parent().unwrap() as int;
        assert(r[q].children() == fs[q].children());
    }
}

/// Adding a fresh node below a directory where its name is free keeps the tree
/// shape.
pub proof fn lemma_add_node_wf(fs: Seq<NodeView>, dir: int, node: NodeView)
    requires
        fs_wf(fs),
        is_dir_node(fs, dir),
        fresh_node(node, dir),
        entry_of(fs[dir].children(), node.name()) is None,
        fs.len() < usize::MAX,
    ensures
        fs_wf(add_node(fs, dir, node)),
        add_node(fs, dir, node).len() == fs.len() + 1,
        forall|k: Seq<u8>| #[trigger] entry_of(add_node(fs, dir, node)[dir].children(), k) == if k == node.name() {
            Some(fs.len() as usize)
        } else {
            entry_of(fs[dir].children(), k)
        },
{
    let n = fs.len() as usize;
    let r = add_node(fs, dir, node);
    let ch = fs[dir].children();
    assert(sorted_entries(ch));
    lemma_with_entry(ch, node.name(), n);
    let p = sorted_pos(ch, node.name());
    assert(r[dir].children() == with_entry(ch, node.name(), n));
    assert forall|i: int| 0 < i < r.len() implies parent_ok(r, i) by {
        if i < fs.len() {
            assert(parent_ok(fs, i));
            if i != dir {
                assert(r[i] == fs[i]);
            }
        } else {
            assert(r[i] == node);
        }
    }
    assert forall|i: int| 0 <= i < r.len() implies sorted_entries(#[trigger] r[i].children()) by {
        if i < fs.len() && i != dir {
            assert(sorted_entries(fs[i].children()));
        }
    }
    assert forall|i: int, k: int|
        #![trigger r[i].children()[k]]
        0 <= i < r.len() && 0 <= k < r[i].children().len() implies entry_ok(r, i, r[i].children()[k]) by {
        if i == dir {
            if k < p {
                assert(r[i].children()[k] == ch[k]);
                assert(entry_ok(fs, i, fs[i].children()[k]));
            } else if k > p {
                assert(r[i].children()[k] == ch[k - 1]);
                assert(entry_ok(fs, i, fs[i].children()[k - 1]));
            } else {
                assert(r[i].children()[k] == (node.name(), n));
                assert(r[n as int] == node);
            }
        } else if i < fs.len() {
            assert(r[i] == fs[i]);
            assert(entry_ok(fs, i, fs[i].children()[k]));
        }
    }
    assert forall|i: int| 0 < i < r.len() implies #[trigger] listed(r, i) by {
        if i < fs.len() {
            assert(listed(fs, i));
            assert(parent_ok(fs, i));
            let q = fs[i].parent().unwrap() as int;
            assert(r[i].name() == fs[i].name() && r[i].parent() == fs[i].parent());
            if q == dir {
                assert(entry_of(ch, fs[i].name()) == Some(i as usize));
                assert(fs[i].name() != node.name());
            } else {
                assert(r[q] == fs[q]);
            }
        } else {
            assert(r[i] == node);
        }
    }
}

/// Resolving an absolute path from the root.
pub open spec fn resolve_abs(fs: Seq<NodeView>, p: Seq<u8>) -> Result<usize, FsError> {
    if !is_absolute(p) {
        Err(FsError::InvalidPath)
    } else {
        walk(fs, 0, path_components(p))
    }
}

/// Resolving an absolute path that must name a directory.
pub open spec fn resolve_dir(fs: Seq<NodeView>, p: Seq<u8>) -> Result<usize, FsError> {
    match resolve_abs(fs, p) {
        Ok(id) => if fs[id as int].is_dir() {
            Ok(id)
        } else {
            Err(FsError::NotADirectory)
        },
        Err(e) => Err(e),
    }
}

/// Resolving an absolute path that must name a file.
pub open spec fn resolve_file(fs: Seq<NodeView>, p: Seq<u8>) -> Result<usize, FsError> {
    match resolve_abs(fs, p) {
        Ok(id) => if fs[id as int].is_dir() {
            Err(FsError::IsADirectory)
        } else {
            Ok(id)
        },
        Err(e) => Err(e),
    }
}

/// Making every directory along an absolute path.
pub open spec fn mkdir_p_result(fs: Seq<NodeView>, p: Seq<u8>) -> (Seq<NodeView>, Result<(), FsError>) {
    if !is_absolute(p) {
        (fs, Err(FsError::InvalidPath))
    } else {
        mkdir_walk(fs, 0, path_components(p))
    }
}

/// Making an empty file at an absolute path whose parent directory exists.
pub open spec fn create_file_result(fs: Seq<NodeView>, p: Seq<u8>) -> (Seq<NodeView>, Result<(), FsError>) {
    if !is_absolute(p) {
        (fs, Err(FsError::InvalidPath))
    } else {
        match parent_and_base(p) {
            Err(e) => (fs, Err(e)),
            Ok((parent, base)) => match resolve_dir(fs, parent) {
                Err(e) => (fs, Err(e)),
                Ok(d) => {
                    let (fs2, r) = create_in(fs, d as int, base);
                    match r {
                        Ok(_) => (fs2, Ok(())),
                        Err(e) => (fs2, Err(e)),
                    }
                },
            },
        }
    }
}

/// The number of components of `p[i..]` is at most what was gathered plus the
/// bytes left.
pub proof fn lemma_split_len(p: Seq<u8>, i: int, cur: Seq<u8>, acc: Seq<Seq<u8>>)
    requires
        0 <= i <= p.len(),
    ensures
        split_from(p, i, cur, acc).len() <= acc.len() + (if cur.len() > 0 { 1int } else { 0int }) + (p.len() - i),
    decreases p.len() - i,
{
    if i < p.len() {
        if p[i] == slash() {
            lemma_split_len(p, i + 1, Seq::empty(), if cur.len() > 0 { acc.push(cur) } else { acc });
        } else {
            lemma_split_len(p, i + 1, cur.push(p[i]), acc);
        }
    }
}

/// A path has no more components than bytes.
pub proof fn lemma_components_len(p: Seq<u8>)
    ensures
        path_components(p).len() <= p.len(),
{
    lemma_split_len(p, 0, Seq::empty(), Seq::empty());
}

/// "/var/log".
pub open spec fn var_log() -> Seq<u8> {
    seq![0x2Fu8, 0x76u8, 0x61u8, 0x72u8, 0x2Fu8, 0x6Cu8, 0x6Fu8, 0x67u8]
}

/// "/var/log/messages".
pub open spec fn var_log_messages() -> Seq<u8> {
    var_log() + seq![0x2Fu8, 0x6Du8, 0x65u8, 0x73u8, 0x73u8, 0x61u8, 0x67u8, 0x65u8, 0x73u8]
}

} // verus!
