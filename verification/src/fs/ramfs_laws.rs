use vstd::prelude::*;
use crate::fs::ramfs_model::{
    create_in, dot, dot_dot, entry_of, fs_wf, is_dir_node, is_file_node, lemma_add_node_wf,
    lemma_entry_found, lemma_with_data_wf, mkdir_in, mkdir_p_result, mkdir_walk, parent_ok,
    path_components, resolve_abs, resolve_dir, walk, with_data, entry_ok, lemma_components_len,
    listed, path_names, path_text, slash, slash_joined, split_from, NodeView,
};
use crate::sys::errors::FsError;

verus! {

/// `b` keeps every node of `a` with its kind and parent, and every entry of its
/// directories.
pub open spec fn extends(a: Seq<NodeView>, b: Seq<NodeView>) -> bool {
    &&& b.len() >= a.len()
    &&& forall|i: int| 0 <= i < a.len() ==> (#[trigger] b[i]).is_dir() == a[i].is_dir() && b[i].parent() == a[i].parent()
    &&& forall|i: int, k: Seq<u8>|
        0 <= i < a.len() && (#[trigger] entry_of(a[i].children(), k)) is Some ==> entry_of(b[i].children(), k)
            == entry_of(a[i].children(), k)
}

proof fn lemma_extends_trans(a: Seq<NodeView>, b: Seq<NodeView>, c: Seq<NodeView>)
    requires
        extends(a, b),
        extends(b, c),
    ensures
        extends(a, c),
{
    assert forall|i: int, k: Seq<u8>|
        0 <= i < a.len() && (#[trigger] entry_of(a[i].children(), k)) is Some implies entry_of(c[i].children(), k)
            == entry_of(a[i].children(), k) by {
        assert(entry_of(b[i].children(), k) == entry_of(a[i].children(), k));
    }
    assert forall|i: int| 0 <= i < a.len() implies (#[trigger] c[i]).is_dir() == a[i].is_dir() && c[i].parent()
        == a[i].parent() by {
        assert(b[i].is_dir() == a[i].is_dir());
    }
}

proof fn lemma_extends_refl(a: Seq<NodeView>)
    ensures
        extends(a, a),
{
}

/// `mkdir` in a directory keeps the tree shape, keeps all it had, and gives a
/// directory entered under that name.
proof fn lemma_mkdir_in(fs: Seq<NodeView>, dir: int, name: Seq<u8>)
    requires
        fs_wf(fs),
        is_dir_node(fs, dir),
        fs.len() < usize::MAX,
    ensures
        ({
            let (fs2, r) = mkdir_in(fs, dir, name);
            &&& fs_wf(fs2)
            &&& extends(fs, fs2)
            &&& fs2.len() <= fs.len() + 1
            &&& r is Ok ==> is_dir_node(fs2, r->Ok_0 as int) && entry_of(fs2[dir].children(), name) == Some(r->Ok_0)
        }),
{
    let (fs2, r) = mkdir_in(fs, dir, name);
    match entry_of(fs[dir].children(), name) {
        Some(id) => {
            lemma_entry_found(fs[dir].children(), name);
            let k = choose|k: int| 0 <= k < fs[dir].children().len() && (#[trigger] fs[dir].children()[k]).0 == name
                && fs[dir].children()[k].1 == id;
            assert(entry_ok(fs, dir, fs[dir].children()[k]));
        },
        None => {
            let node = NodeView::Dir { name, children: Seq::empty(), parent: Some(dir as usize) };
            lemma_add_node_wf(fs, dir, node);
            assert forall|i: int, k: Seq<u8>|
                0 <= i < fs.len() && (#[trigger] entry_of(fs[i].children(), k)) is Some implies entry_of(
                fs2[i].children(),
                k,
            ) == entry_of(fs[i].children(), k) by {
                if i != dir {
                    assert(fs2[i] == fs[i]);
                }
            }
            assert forall|i: int| 0 <= i < fs.len() implies (#[trigger] fs2[i]).is_dir() == fs[i].is_dir()
                && fs2[i].parent() == fs[i].parent() by {
                if i != dir {
                    assert(fs2[i] == fs[i]);
                }
            }
            assert(fs2[fs.len() as int] == node);
        },
    }
}

/// Making directories along `comps` from a directory keeps the tree shape and all
/// it had, and where it succeeds the components then resolve to a directory.
pub proof fn lemma_mkdir_walk(fs: Seq<NodeView>, curr: usize, comps: Seq<Seq<u8>>)
    requires
        fs_wf(fs),
        is_dir_node(fs, curr as int),
        fs.len() + comps.len() < usize::MAX,
    ensures
        ({
            let (fs2, r) = mkdir_walk(fs, curr, comps);
            &&& fs_wf(fs2)
            &&& extends(fs, fs2)
            &&& fs2.len() <= fs.len() + comps.len()
            &&& r is Ok ==> walk(fs2, curr, comps) is Ok && is_dir_node(fs2, walk(fs2, curr, comps)->Ok_0 as int)
        }),
    decreases comps.len(),
{
    if comps.len() == 0 {
        lemma_extends_refl(fs);
    } else {
        let c = comps[0];
        let rest = comps.drop_first();
        if c == dot() {
            lemma_mkdir_walk(fs, curr, rest);
        } else if c == dot_dot() {
            let p = fs[curr as int].parent().unwrap_or(0);
            if curr > 0 {
                assert(parent_ok(fs, curr as int));
            }
            lemma_mkdir_walk(fs, p, rest);
            let (fs2, r) = mkdir_walk(fs, p, rest);
            assert(fs2[curr as int].parent() == fs[curr as int].parent());
            assert(fs2[curr as int].is_dir());
            assert(fs[curr as int].parent().unwrap_or(curr) == p);
        } else {
            lemma_mkdir_in(fs, curr as int, c);
            let (fs1, r1) = mkdir_in(fs, curr as int, c);
            match r1 {
                Ok(id) => {
                    lemma_mkdir_walk(fs1, id, rest);
                    let (fs2, r) = mkdir_walk(fs1, id, rest);
                    lemma_extends_trans(fs, fs1, fs2);
                    assert(entry_of(fs1[curr as int].children(), c) is Some);
                    assert(entry_of(fs2[curr as int].children(), c) == Some(id));
                    assert(fs2[curr as int].is_dir() == fs1[curr as int].is_dir());
                },
                Err(e) => {},
            }
        }
    }
}

/// After `mkdir -p` of an absolute path succeeds, the path leads to a directory.
pub proof fn law_mkdir_p_then_lookup_dir(fs: Seq<NodeView>, p: Seq<u8>)
    requires
        fs_wf(fs),
        fs.len() + p.len() < usize::MAX,
        mkdir_p_result(fs, p).1 is Ok,
    ensures
        fs_wf(mkdir_p_result(fs, p).0),
        resolve_dir(mkdir_p_result(fs, p).0, p) is Ok,
{
    lemma_components_len(p);
    lemma_mkdir_walk(fs, 0, path_components(p));
}

/// Making directories along `comps` a second time, after a first time succeeded,
/// succeeds and changes nothing.
pub proof fn lemma_mkdir_walk_again(fs: Seq<NodeView>, curr: usize, comps: Seq<Seq<u8>>)
    requires
        fs_wf(fs),
        is_dir_node(fs, curr as int),
        fs.len() + comps.len() < usize::MAX,
        mkdir_walk(fs, curr, comps).1 is Ok,
    ensures
        mkdir_walk(mkdir_walk(fs, curr, comps).0, curr, comps) == (mkdir_walk(fs, curr, comps).0, Ok::<
            (),
            FsError,
        >(())),
    decreases comps.len(),
{
    lemma_mkdir_walk(fs, curr, comps);
    let fs2 = mkdir_walk(fs, curr, comps).0;
    if comps.len() > 0 {
        let c = comps[0];
        let rest = comps.drop_first();
        assert(fs2[curr as int].is_dir() == fs[curr as int].is_dir());
        if c == dot() {
            lemma_mkdir_walk_again(fs, curr, rest);
        } else if c == dot_dot() {
            let p = fs[curr as int].parent().unwrap_or(0);
            if curr > 0 {
                assert(parent_ok(fs, curr as int));
            }
            assert(fs2[curr as int].parent() == fs[curr as int].parent());
            lemma_mkdir_walk_again(fs, p, rest);
        } else {
            lemma_mkdir_in(fs, curr as int, c);
            let (fs1, r1) = mkdir_in(fs, curr as int, c);
            let id = r1->Ok_0;
            lemma_mkdir_walk(fs1, id, rest);
            lemma_mkdir_walk_again(fs1, id, rest);
            assert(mkdir_walk(fs1, id, rest).0 == fs2);
            assert(entry_of(fs1[curr as int].children(), c) == Some(id));
            assert(entry_of(fs2[curr as int].children(), c) == Some(id));
            assert(fs2[id as int].is_dir());
            assert(mkdir_in(fs2, curr as int, c) == (fs2, Ok::<usize, FsError>(id)));
        }
    }
}

/// `mkdir -p` of a path a second time, after a first one succeeded, succeeds
/// and leaves the tree as the first one left it.
pub proof fn law_mkdir_p_idempotent(fs: Seq<NodeView>, p: Seq<u8>)
    requires
        fs_wf(fs),
        fs.len() + p.len() < usize::MAX,
        mkdir_p_result(fs, p).1 is Ok,
    ensures
        mkdir_p_result(mkdir_p_result(fs, p).0, p) == (mkdir_p_result(fs, p).0, Ok::<(), FsError>(())),
{
    lemma_components_len(p);
    lemma_mkdir_walk_again(fs, 0, path_components(p));
}

/// `mkdir` of a name that a first `mkdir` made or found gives the same directory
/// and changes nothing.
pub proof fn law_mkdir_idempotent(fs: Seq<NodeView>, dir: int, name: Seq<u8>)
    requires
        fs_wf(fs),
        is_dir_node(fs, dir),
        fs.len() < usize::MAX,
        mkdir_in(fs, dir, name).1 is Ok,
    ensures
        mkdir_in(mkdir_in(fs, dir, name).0, dir, name) == mkdir_in(fs, dir, name),
{
    lemma_mkdir_in(fs, dir, name);
}

/// A file made with `create` is then found under its name, as an empty file.
pub proof fn law_create_then_lookup(fs: Seq<NodeView>, dir: int, name: Seq<u8>)
    requires
        fs_wf(fs),
        is_dir_node(fs, dir),
        fs.len() < usize::MAX,
        entry_of(fs[dir].children(), name) is None,
    ensures
        ({
            let (fs2, r) = create_in(fs, dir, name);
            &&& fs_wf(fs2)
            &&& r == Ok::<usize, FsError>(fs.len() as usize)
            &&& entry_of(fs2[dir].children(), name) == Some(fs.len() as usize)
            &&& is_file_node(fs2, fs.len() as int)
            &&& fs2[fs.len() as int].data().len() == 0
        }),
{
    let node = NodeView::File { name, data: Seq::empty(), parent: Some(dir as usize) };
    lemma_add_node_wf(fs, dir, node);
}

/// `create` of a name already in the directory is refused and changes nothing.
pub proof fn law_create_existing_refused(fs: Seq<NodeView>, dir: int, name: Seq<u8>)
    requires
        entry_of(fs[dir].children(), name) is Some,
    ensures
        create_in(fs, dir, name).0 == fs,
        create_in(fs, dir, name).1 is Err,
{
}

/// Reading a file after replacing its contents gives what was written, and no
/// other node changes.
pub proof fn law_read_after_write(fs: Seq<NodeView>, id: int, d: Seq<u8>)
    requires
        fs_wf(fs),
        is_file_node(fs, id),
    ensures
        fs_wf(with_data(fs, id, d)),
        is_file_node(with_data(fs, id, d), id),
        with_data(fs, id, d)[id].data() == d,
        with_data(fs, id, d)[id].name() == fs[id].name(),
        forall|j: int| 0 <= j < fs.len() && j != id ==> #[trigger] with_data(fs, id, d)[j] == fs[j],
{
    lemma_with_data_wf(fs, id, d);
}

/// A name a path can carry: not empty, without '/', and neither "." nor "..".
pub open spec fn plain_name(n: Seq<u8>) -> bool {
    &&& n.len() > 0
    &&& forall|k: int| 0 <= k < n.len() ==> n[k] != slash()
    &&& n != dot()
    &&& n != dot_dot()
}

/// Scanning over a name without '/' adds it to the component in progress.
proof fn lemma_scan_name(p: Seq<u8>, i: int, cur: Seq<u8>, acc: Seq<Seq<u8>>, n: Seq<u8>)
    requires
        0 <= i,
        i + n.len() <= p.len(),
        p.subrange(i, i + n.len()) == n,
        forall|k: int| 0 <= k < n.len() ==> n[k] != slash(),
    ensures
        split_from(p, i, cur, acc) == split_from(p, i + n.len(), cur + n, acc),
    decreases n.len(),
{
    if n.len() == 0 {
        assert(cur + n =~= cur);
    } else {
        assert(p[i] == n[0]);
        let n2 = n.drop_first();
        assert(p.subrange(i + 1, i + 1 + n2.len()) =~= n2);
        lemma_scan_name(p, i + 1, cur.push(n[0]), acc, n2);
        assert(cur.push(n[0]) + n2 =~= cur + n);
    }
}

/// A path made of names, each after a '/', starts with its first name.
proof fn lemma_slash_joined_front(names: Seq<Seq<u8>>)
    requires
        names.len() > 0,
    ensures
        slash_joined(names) == seq![slash()] + names[0] + slash_joined(names.drop_first()),
    decreases names.len(),
{
    if names.len() == 1 {
        assert(names.drop_last() =~= Seq::<Seq<u8>>::empty());
        assert(names.drop_first() =~= Seq::<Seq<u8>>::empty());
        assert(slash_joined(names) =~= seq![slash()] + names[0] + slash_joined(names.drop_first()));
    } else {
        let init = names.drop_last();
        lemma_slash_joined_front(init);
        assert(init.drop_first() =~= names.drop_first().drop_last());
        assert(names.drop_first().last() == names.last());
        assert(slash_joined(names) =~= seq![slash()] + names[0] + slash_joined(names.drop_first()));
    }
}

/// Splitting a path made of plain names gives those names back.
proof fn lemma_scan_joined(p: Seq<u8>, i: int, acc: Seq<Seq<u8>>, names: Seq<Seq<u8>>)
    requires
        0 <= i <= p.len(),
        p.subrange(i, p.len() as int) == slash_joined(names),
        forall|k: int| 0 <= k < names.len() ==> plain_name(#[trigger] names[k]),
    ensures
        split_from(p, i, Seq::empty(), acc) == acc + names,
    decreases names.len(),
{
    if names.len() == 0 {
        assert(p.subrange(i, p.len() as int).len() == 0);
        assert(acc + names =~= acc);
    } else {
        lemma_slash_joined_front(names);
        let n0 = names[0];
        let rest = names.drop_first();
        assert(plain_name(n0));
        let q = p.subrange(i, p.len() as int);
        assert(q == seq![slash()] + n0 + slash_joined(rest));
        assert(q[0] == p[i]);
        assert((seq![slash()] + n0 + slash_joined(rest))[0] == slash());
        assert(p[i] == slash());
        let j = i + 1 + n0.len();
        assert(j <= p.len());
        assert forall|k: int| 0 <= k < n0.len() implies p.subrange(i + 1, j)[k] == n0[k] by {
            assert(p.subrange(i + 1, j)[k] == q[1 + k]);
            assert((seq![slash()] + n0 + slash_joined(rest))[1 + k] == n0[k]);
        }
        assert(p.subrange(i + 1, j) =~= n0);
        lemma_scan_name(p, i + 1, Seq::empty(), acc, n0);
        assert(Seq::<u8>::empty() + n0 =~= n0);
        assert forall|k: int| 0 <= k < p.len() - j implies p.subrange(j, p.len() as int)[k] == slash_joined(rest)[k] by {
            assert(p.subrange(j, p.len() as int)[k] == q[1 + n0.len() + k]);
            assert((seq![slash()] + n0 + slash_joined(rest))[1 + n0.len() + k] == slash_joined(rest)[k]);
        }
        assert(p.subrange(j, p.len() as int) =~= slash_joined(rest));
        assert forall|k: int| 0 <= k < rest.len() implies plain_name(#[trigger] rest[k]) by {
            assert(rest[k] == names[k + 1]);
        }
        if rest.len() == 0 {
            assert(j == p.len());
            assert(acc.push(n0) =~= acc + names);
        } else {
            lemma_slash_joined_front(rest);
            assert(p.subrange(j, p.len() as int)[0] == p[j]);
            assert((seq![slash()] + rest[0] + slash_joined(rest.drop_first()))[0] == slash());
            assert(p[j] == slash());
            lemma_scan_joined(p, j, acc.push(n0), rest);
            assert(acc.push(n0) + rest =~= acc + names);
        }
    }
}

/// Walking a list with one more name walks the list, then that name.
proof fn lemma_walk_push(fs: Seq<NodeView>, c: usize, comps: Seq<Seq<u8>>, x: Seq<u8>)
    ensures
        walk(fs, c, comps.push(x)) == match walk(fs, c, comps) {
            Ok(m) => walk(fs, m, seq![x]),
            Err(e) => Err(e),
        },
    decreases comps.len(),
{
    if comps.len() == 0 {
        assert(comps.push(x) =~= seq![x]);
    } else {
        let c0 = comps[0];
        let rest = comps.drop_first();
        assert(comps.push(x)[0] == c0);
        assert(comps.push(x).drop_first() =~= rest.push(x));
        if c0 == dot() {
            lemma_walk_push(fs, c, rest, x);
        } else if !fs[c as int].is_dir() {
        } else if c0 == dot_dot() {
            lemma_walk_push(fs, fs[c as int].parent().unwrap_or(c), rest, x);
        } else {
            if let Some(id) = entry_of(fs[c as int].children(), c0) {
                lemma_walk_push(fs, id, rest, x);
            }
        }
    }
}

/// Walking the names from the root down to a node reaches it.
proof fn lemma_walk_path_names(fs: Seq<NodeView>, id: int)
    requires
        fs_wf(fs),
        0 <= id < fs.len(),
        forall|k: int| 0 <= k < path_names(fs, id).len() ==> plain_name(#[trigger] path_names(fs, id)[k]),
    ensures
        walk(fs, 0, path_names(fs, id)) == Ok::<usize, FsError>(id as usize),
    decreases id,
{
    if id > 0 {
        assert(parent_ok(fs, id));
        assert(listed(fs, id));
        let p = fs[id].parent().unwrap() as int;
        let names = path_names(fs, id);
        assert(names == path_names(fs, p).push(fs[id].name()));
        assert forall|k: int| 0 <= k < path_names(fs, p).len() implies plain_name(#[trigger] path_names(fs, p)[k]) by {
            assert(names[k] == path_names(fs, p)[k]);
        }
        lemma_walk_path_names(fs, p);
        lemma_walk_push(fs, 0, path_names(fs, p), fs[id].name());
        assert(plain_name(names[names.len() - 1]));
        assert(walk(fs, id as usize, seq![fs[id].name()].drop_first()) == Ok::<usize, FsError>(id as usize));
    }
}

/// The path of a node leads back to it: where the names on the way from the
/// root are plain, resolving the path of node `id` gives `id`.
pub proof fn law_path_of_resolves(fs: Seq<NodeView>, id: int)
    requires
        fs_wf(fs),
        0 <= id < fs.len(),
        forall|k: int| 0 <= k < path_names(fs, id).len() ==> plain_name(#[trigger] path_names(fs, id)[k]),
    ensures
        resolve_abs(fs, path_text(path_names(fs, id))) == Ok::<usize, FsError>(id as usize),
{
    let names = path_names(fs, id);
    lemma_walk_path_names(fs, id);
    if names.len() == 0 {
        let p = path_text(names);
        assert(p == seq![slash()]);
        assert(split_from(p, 1, Seq::empty(), Seq::empty()) == Seq::<Seq<u8>>::empty());
        assert(path_components(p) == Seq::<Seq<u8>>::empty());
    } else {
        let p = slash_joined(names);
        lemma_slash_joined_front(names);
        assert(p.subrange(0, p.len() as int) =~= p);
        lemma_scan_joined(p, 0, Seq::empty(), names);
        assert(Seq::<Seq<u8>>::empty() + names =~= names);
    }
}

} // verus!
