//! Loading the initial RAM disk: a tar archive whose regular files are copied
//! into the RAM file system under the path that follows the first '/' of their
//! names.

use vstd::prelude::*;
use tar_no_std::TarArchiveRef;
use crate::fs::ramfs::Ramfs;
use crate::fs::ramfs_model::{
    add_node, create_file_result, dot, dot_dot, entry_of, entry_ok, fs_wf, is_absolute, last_slash, mkdir_p_result,
    only_slashes, parent_and_base, parent_ok, path_components, resolve_dir, resolve_file, slash, trim_slashes, walk,
    with_data, lemma_components_len, lemma_entry_found, NodeView,
};
use crate::fs::ramfs_laws::lemma_mkdir_walk;
use crate::sys::errors::FsError;

verus! {

/// The regular files of a tar archive, in archive order, each as its name up to
/// the first space (absent where that is not UTF-8 text) and its bytes; absent
/// where the archive does not pass validation.
pub uninterp spec fn tar_files_of(archive: Seq<u8>) -> Option<Seq<(Option<Seq<u8>>, Seq<u8>)>>;

/// Archive members as plain values.
pub open spec fn members_view(files: Seq<(Option<Vec<u8>>, Vec<u8>)>) -> Seq<(Option<Seq<u8>>, Seq<u8>)> {
    Seq::new(
        files.len(),
        |i: int|
            (
                match files[i].0 {
                    Some(n) => Some(n@),
                    None => None,
                },
                files[i].1@,
            ),
    )
}

/// The files of `archive` (`tar_no_std::TarArchiveRef::new`, then `entries`,
/// each entry's `filename().as_str_until_first_space()` and `data()`).
/// The result is the one `tar_files_of` names for these bytes: `new` refuses what
/// its validation refuses, and after it the iteration does not panic.
#[verifier::external_body]
fn tar_files(archive: &[u8]) -> (r: Option<Vec<(Option<Vec<u8>>, Vec<u8>)>>)
    ensures
        match tar_files_of(archive@) {
            None => r is None,
            Some(m) => r is Some && members_view(r->Some_0@) == m,
        },
{
    let tar = match TarArchiveRef::new(archive) {
        Ok(t) => t,
        Err(_) => return None,
    };
    let mut out = Vec::new();
    for entry in tar.entries() {
        let name = match entry.filename().as_str_until_first_space() {
            Ok(s) => Some(s.as_bytes().to_vec()),
            Err(_) => None,
        };
        out.push((name, entry.data().to_vec()));
    }
    Some(out)
}

/// `j` is the index of the first '/' of `n`.
pub open spec fn is_first_slash(n: Seq<u8>, j: int) -> bool {
    &&& 0 <= j < n.len()
    &&& n[j] == slash()
    &&& forall|k: int| 0 <= k < j ==> n[k] != slash()
}

/// The path a member is stored under: "/" and what follows the first '/' of
/// its name.
pub open spec fn initrd_path(n: Seq<u8>) -> Seq<u8> {
    let j = choose|j: int| is_first_slash(n, j);
    seq![slash()] + n.subrange(j + 1, n.len() as int)
}

/// A member that can be stored: its name is text with a '/', and the path
/// after it is not made of '/' alone.
pub open spec fn member_ok(name: Option<Seq<u8>>) -> bool {
    match name {
        None => false,
        Some(n) => (exists|j: int| is_first_slash(n, j)) && !only_slashes(initrd_path(n)),
    }
}

/// Storing the members in order: make the parent directory (one that exists
/// already is fine), make the file, write its bytes; the first error ends it.
/// Absent where a member that is reached cannot be stored at all.
pub open spec fn initrd_result(fs: Seq<NodeView>, files: Seq<(Option<Seq<u8>>, Seq<u8>)>) -> Option<
    (Seq<NodeView>, Result<(), FsError>),
>
    decreases files.len(),
{
    if files.len() == 0 {
        Some((fs, Ok(())))
    } else if !member_ok(files[0].0) {
        None
    } else {
        let path = initrd_path(files[0].0.unwrap());
        match parent_and_base(path) {
            Err(e) => Some((fs, Err(e))),
            Ok((parent, _)) => {
                let (fs1, r1) = mkdir_p_result(fs, parent);
                if r1 is Err && r1 != Err::<(), FsError>(FsError::AlreadyExistsDir) {
                    Some((fs1, r1))
                } else {
                    let (fs2, r2) = create_file_result(fs1, path);
                    match r2 {
                        Err(e) => Some((fs2, Err(e))),
                        Ok(_) => match resolve_file(fs2, path) {
                            Err(e) => Some((fs2, Err(e))),
                            Ok(id) => initrd_result(with_data(fs2, id as int, files[0].1), files.drop_first()),
                        },
                    }
                }
            },
        }
    }
}

/// Room the members may take: each adds at most a node per byte of its name,
/// and one more.
pub open spec fn initrd_size(files: Seq<(Option<Seq<u8>>, Seq<u8>)>) -> nat
    decreases files.len(),
{
    if files.len() == 0 {
        0
    } else {
        (match files[0].0 {
            Some(n) => n.len(),
            None => 0,
        }) + 2 + initrd_size(files.drop_first())
    }
}

/// Every member can be stored.
pub open spec fn all_members_ok(files: Seq<(Option<Seq<u8>>, Seq<u8>)>) -> bool {
    forall|i: int| 0 <= i < files.len() ==> member_ok(#[trigger] files[i].0)
}

proof fn lemma_first_slash_unique(n: Seq<u8>, j: int)
    requires
        is_first_slash(n, j),
    ensures
        initrd_path(n) == seq![slash()] + n.subrange(j + 1, n.len() as int),
{
    let c = choose|c: int| is_first_slash(n, c);
    assert(is_first_slash(n, c));
    if c < j {
        assert(n[c] != slash());
    } else if c > j {
        assert(n[j] != slash());
    }
}

proof fn lemma_trim_prefix(p: Seq<u8>)
    ensures
        trim_slashes(p).len() <= p.len(),
        trim_slashes(p) == p.subrange(0, trim_slashes(p).len() as int),
        forall|i: int| trim_slashes(p).len() <= i < p.len() ==> p[i] == slash(),
    decreases p.len(),
{
    if p.len() > 0 && p.last() == slash() {
        let q = p.drop_last();
        lemma_trim_prefix(q);
        assert(q.subrange(0, trim_slashes(p).len() as int) =~= p.subrange(0, trim_slashes(p).len() as int));
        assert forall|i: int| trim_slashes(p).len() <= i < p.len() implies p[i] == slash() by {
            if i < q.len() {
                assert(q[i] == p[i]);
            }
        }
    } else {
        assert(p.subrange(0, p.len() as int) =~= p);
    }
}

proof fn lemma_last_slash_found(t: Seq<u8>)
    requires
        t.len() > 0,
        t[0] == slash(),
    ensures
        0 <= last_slash(t) < t.len(),
    decreases t.len(),
{
    if t.last() != slash() {
        lemma_last_slash_found(t.drop_last());
    }
}

/// The parent part of a path that splits is no longer than the path.
proof fn lemma_parent_len(p: Seq<u8>)
    requires
        is_absolute(p),
        !only_slashes(p),
        parent_and_base(p) is Ok,
    ensures
        parent_and_base(p)->Ok_0.0.len() <= p.len(),
{
    let t = trim_slashes(p);
    lemma_trim_prefix(p);
    if t.len() == 0 {
        assert(p == seq![slash()] || only_slashes(p)) by {
            if p.len() == 1 {
                assert(p =~= seq![slash()]);
            }
        }
    } else {
        assert(t[0] == p[0]);
        lemma_last_slash_found(t);
    }
}

/// Walking from an existing node ends at an existing node.
proof fn lemma_walk_in_range(fs: Seq<NodeView>, curr: usize, comps: Seq<Seq<u8>>)
    requires
        fs_wf(fs),
        curr < fs.len(),
    ensures
        walk(fs, curr, comps) is Ok ==> walk(fs, curr, comps)->Ok_0 < fs.len(),
    decreases comps.len(),
{
    if comps.len() > 0 {
        let c = comps[0];
        let rest = comps.drop_first();
        if c == dot() {
            lemma_walk_in_range(fs, curr, rest);
        } else if !fs[curr as int].is_dir() {
        } else if c == dot_dot() {
            if curr > 0 {
                assert(parent_ok(fs, curr as int));
            }
            lemma_walk_in_range(fs, fs[curr as int].parent().unwrap_or(curr), rest);
        } else {
            let ch = fs[curr as int].children();
            if let Some(id) = entry_of(ch, c) {
                lemma_entry_found(ch, c);
                let k = choose|k: int| 0 <= k < ch.len() && (#[trigger] ch[k]).0 == c && ch[k].1 == id;
                assert(entry_ok(fs, curr as int, ch[k]));
                lemma_walk_in_range(fs, id, rest);
            }
        }
    }
}

/// Making a file adds at most one node.
proof fn lemma_create_file_len(fs: Seq<NodeView>, p: Seq<u8>)
    requires
        fs_wf(fs),
    ensures
        create_file_result(fs, p).0.len() <= fs.len() + 1,
{
    if is_absolute(p) {
        if let Ok((parent, base)) = parent_and_base(p) {
            if is_absolute(parent) {
                lemma_walk_in_range(fs, 0, path_components(parent));
            }
            if let Ok(d) = resolve_dir(fs, parent) {
                assert(d < fs.len());
                if entry_of(fs[d as int].children(), base) is None {
                    let node = NodeView::File { name: base, data: Seq::empty(), parent: Some(d as usize) };
                    assert(add_node(fs, d as int, node).len() == fs.len() + 1);
                }
            }
        }
    }
}

/// What one member adds to the file system is bounded by its name's length.
proof fn lemma_member_growth(fs: Seq<NodeView>, n: Seq<u8>, data: Seq<u8>)
    requires
        fs_wf(fs),
        fs.len() + n.len() + 2 < usize::MAX,
        member_ok(Some(n)),
    ensures
        ({
            let path = initrd_path(n);
            &&& is_absolute(path)
            &&& path.len() <= n.len()
            &&& parent_and_base(path) is Ok ==> {
                let parent = parent_and_base(path)->Ok_0.0;
                let (fs1, r1) = mkdir_p_result(fs, parent);
                &&& parent.len() <= n.len()
                &&& fs1.len() <= fs.len() + n.len()
                &&& fs_wf(fs1) ==> create_file_result(fs1, path).0.len() <= fs1.len() + 1
            }
        }),
{
    let j = choose|j: int| is_first_slash(n, j);
    lemma_first_slash_unique(n, j);
    let path = initrd_path(n);
    assert(path[0] == slash());
    if parent_and_base(path) is Ok {
        lemma_parent_len(path);
        let parent = parent_and_base(path)->Ok_0.0;
        lemma_components_len(parent);
        lemma_mkdir_walk(fs, 0, path_components(parent));
        let fs1 = mkdir_p_result(fs, parent).0;
        if fs_wf(fs1) {
            lemma_create_file_len(fs1, path);
        }
    }
}

/// Where every member can be stored, storing them ends, whatever the file
/// system holds.
proof fn lemma_all_ok_loads(fs: Seq<NodeView>, files: Seq<(Option<Seq<u8>>, Seq<u8>)>)
    requires
        all_members_ok(files),
    ensures
        initrd_result(fs, files) is Some,
    decreases files.len(),
{
    if files.len() > 0 {
        assert(member_ok(files[0].0));
        assert(all_members_ok(files.drop_first())) by {
            assert forall|i: int| 0 <= i < files.drop_first().len() implies member_ok(
                #[trigger] files.drop_first()[i].0,
            ) by {
                assert(files.drop_first()[i] == files[i + 1]);
            }
        }
        let path = initrd_path(files[0].0.unwrap());
        if let Ok((parent, _)) = parent_and_base(path) {
            let (fs1, r1) = mkdir_p_result(fs, parent);
            let (fs2, r2) = create_file_result(fs1, path);
            if let Ok(id) = resolve_file(fs2, path) {
                lemma_all_ok_loads(with_data(fs2, id as int, files[0].1), files.drop_first());
            }
        }
    }
}

/// The path `name` is stored under, if it has a '/'.
fn initrd_path_of(name: &[u8]) -> (r: Option<Vec<u8>>)
    ensures
        r is Some <==> exists|j: int| is_first_slash(name@, j),
        r is Some ==> r->Some_0@ == initrd_path(name@),
{
    let mut j: usize = 0;
    while j < name.len() && name[j] != 0x2Fu8
        invariant
            j <= name@.len(),
            forall|k: int| 0 <= k < j ==> name@[k] != slash(),
        decreases name@.len() - j,
    {
        j = j + 1;
    }
    if j == name.len() {
        assert forall|c: int| !is_first_slash(name@, c) by {
            if is_first_slash(name@, c) {
                assert(name@[c] != slash());
            }
        }
        return None;
    }
    assert(is_first_slash(name@, j as int));
    proof {
        lemma_first_slash_unique(name@, j as int);
    }
    let mut path: Vec<u8> = Vec::new();
    path.push(0x2Fu8);
    let mut k: usize = j + 1;
    while k < name.len()
        invariant
            j < k <= name@.len(),
            path@ == seq![slash()] + name@.subrange(j + 1, k as int),
        decreases name@.len() - k,
    {
        path.push(name[k]);
        k = k + 1;
        assert(path@ =~= seq![slash()] + name@.subrange(j + 1, k as int));
    }
    Some(path)
}

/// The path has at least two bytes and all are '/'.
fn is_only_slashes(p: &[u8]) -> (r: bool)
    ensures
        r == only_slashes(p@),
{
    if p.len() < 2 {
        return false;
    }
    let mut i: usize = 0;
    while i < p.len()
        invariant
            i <= p@.len(),
            forall|k: int| 0 <= k < i ==> p@[k] == slash(),
        decreases p@.len() - i,
    {
        if p[i] != 0x2Fu8 {
            return false;
        }
        i = i + 1;
    }
    true
}

/// Whether a member can be stored (see `member_ok`).
fn member_is_ok(name: &Option<Vec<u8>>) -> (r: bool)
    ensures
        r == member_ok(
            match name {
                Some(n) => Some(n@),
                None => None,
            },
        ),
{
    match name {
        None => false,
        Some(n) => match initrd_path_of(n.as_slice()) {
            None => false,
            Some(p) => !is_only_slashes(p.as_slice()),
        },
    }
}

impl Ramfs {
    /// Stores archive members in order (see `initrd_result`).
    pub fn load_initrd_files(&mut self, files: &Vec<(Option<Vec<u8>>, Vec<u8>)>) -> (r: Result<(), FsError>)
        requires
            old(self).wf(),
            initrd_result(old(self)@, members_view(files@)) is Some,
            old(self)@.len() + initrd_size(members_view(files@)) < usize::MAX,
        ensures
            final(self).wf(),
            initrd_result(old(self)@, members_view(files@)) == Some((final(self)@, r)),
    {
        let ghost fv = members_view(files@);
        let ghost fs0 = self@;
        let mut i: usize = 0;
        assert(fv.skip(0) =~= fv);
        while i < files.len()
            invariant
                self.wf(),
                i <= files@.len(),
                fv == members_view(files@),
                fs0 == old(self)@,
                initrd_result(fs0, fv) == initrd_result(self@, fv.skip(i as int)),
                initrd_result(self@, fv.skip(i as int)) is Some,
                self@.len() + initrd_size(fv.skip(i as int)) < usize::MAX,
            decreases files@.len() - i,
        {
            let ghost rest = fv.skip(i as int);
            let ghost fsi = self@;
            assert(rest[0] == fv[i as int]);
            assert(rest.drop_first() =~= fv.skip(i + 1));
            let name = files[i].0.as_ref().unwrap();
            let data = files[i].1.as_slice();
            assert(rest[0].0 == Some(name@));
            assert(rest[0].1 == data@);
            proof {
                lemma_member_growth(fsi, name@, data@);
            }
            let path = initrd_path_of(name.as_slice()).unwrap();
            let (parent, _base) = match Ramfs::split_parent_base(path.as_slice()) {
                Ok(v) => v,
                Err(e) => {
                    assert(initrd_result(fsi, rest) == Some((fsi, Err::<(), FsError>(e))));
                    return Err(e);
                },
            };
            let ghost (fs1, r1) = mkdir_p_result(fsi, parent@);
            match self.mkdir_p(parent.as_slice()) {
                Ok(_) => {},
                Err(FsError::AlreadyExistsDir) => {},
                Err(e) => {
                    assert(initrd_result(fsi, rest) == Some((fs1, r1)));
                    return Err(e);
                },
            }
            let ghost (fs2, r2) = create_file_result(fs1, path@);
            if let Err(e) = self.create_file(path.as_slice()) {
                assert(initrd_result(fsi, rest) == Some((fs2, r2)));
                return Err(e);
            }
            proof {
                lemma_walk_in_range(fs2, 0, path_components(path@));
            }
            if let Err(e) = self.write_file_from_path(path.as_slice(), data) {
                assert(initrd_result(fsi, rest) == Some((fs2, Err::<(), FsError>(e))));
                return Err(e);
            }
            i = i + 1;
        }
        assert(fv.skip(i as int).len() == 0);
        Ok(())
    }

    /// Stores the regular files of the tar archive `archive` (see
    /// `initrd_result`).
    pub fn load_initrd(&mut self, archive: &[u8]) -> (r: Result<(), FsError>)
        requires
            old(self).wf(),
            tar_files_of(archive@) is Some,
            initrd_result(old(self)@, tar_files_of(archive@)->Some_0) is Some,
            old(self)@.len() + initrd_size(tar_files_of(archive@)->Some_0) < usize::MAX,
        ensures
            final(self).wf(),
            initrd_result(old(self)@, tar_files_of(archive@)->Some_0) == Some((final(self)@, r)),
    {
        let files = tar_files(archive).unwrap();
        self.load_initrd_files(&files)
    }

    /// `load_initrd` where the archive is valid, every member can be stored and
    /// there is room for them all; `None`, with the file system unchanged,
    /// otherwise.
    pub fn try_load_initrd(&mut self, archive: &[u8]) -> (r: Option<Result<(), FsError>>)
        requires
            old(self).wf(),
        ensures
            final(self).wf(),
            match tar_files_of(archive@) {
                None => r is None && final(self)@ == old(self)@,
                Some(m) => if all_members_ok(m) && old(self)@.len() + initrd_size(m) < usize::MAX {
                    r is Some && initrd_result(old(self)@, m) == Some((final(self)@, r->Some_0))
                } else {
                    r is None && final(self)@ == old(self)@
                },
            },
    {
        let files = match tar_files(archive) {
            Some(f) => f,
            None => return None,
        };
        let ghost m = members_view(files@);
        let mut size: usize = 0;
        let mut i: usize = 0;
        assert(m.skip(0) =~= m);
        while i < files.len()
            invariant
                self.wf(),
                self@ == old(self)@,
                i <= files@.len(),
                m == members_view(files@),
                tar_files_of(archive@) == Some(m),
                forall|k: int| 0 <= k < i ==> member_ok(#[trigger] m[k].0),
                size + initrd_size(m.skip(i as int)) == initrd_size(m),
            decreases files@.len() - i,
        {
            assert(m.skip(i as int).drop_first() =~= m.skip(i + 1));
            assert(m.skip(i as int)[0] == m[i as int]);
            assert(m[i as int].0 == match files@[i as int].0 {
                Some(n) => Some(n@),
                None => None,
            });
            if !member_is_ok(&files[i].0) {
                assert(!all_members_ok(m)) by {
                    assert(!member_ok(m[i as int].0));
                }
                return None;
            }
            let n: usize = match &files[i].0 {
                Some(n) => n.len(),
                None => 0,
            };
            assert(initrd_size(m.skip(i as int)) == n + 2 + initrd_size(m.skip(i + 1)));
            size = match size.checked_add(n) {
                Some(s) => match s.checked_add(2) {
                    Some(s2) => s2,
                    None => {
                        assert(initrd_size(m) > usize::MAX);
                        return None;
                    },
                },
                None => return None,
            };
            i = i + 1;
        }
        assert(m.skip(i as int).len() == 0);
        let len = self.node_count();
        if size >= usize::MAX - len {
            return None;
        }
        proof {
            lemma_all_ok_loads(self@, m);
        }
        Some(self.load_initrd(archive))
    }
}

} // verus!
