pub mod file_descriptor;
pub mod initrd;
pub mod procfs;
pub mod ramfs;
pub mod ramfs_laws;
pub mod ramfs_model;
pub mod vfs;

use vstd::prelude::*;
use crate::sys::syscall::FileKindTag;

verus! {

/// One entry of a directory listing.
#[derive(Debug, Clone)]
pub struct DirEntry {
    pub id: u64,
    pub name: Vec<u8>,
    pub ftype: FileKindTag,
}

/// A copy of a byte slice.
pub fn copy_bytes(src: &[u8]) -> (r: Vec<u8>)
    ensures
        r@ == src@,
{
    let mut v: Vec<u8> = Vec::new();
    let mut i: usize = 0;
    while i < src.len()
        invariant
            i <= src@.len(),
            v@ == src@.subrange(0, i as int),
        decreases src@.len() - i,
    {
        v.push(src[i]);
        i = i + 1;
        assert(v@ =~= src@.subrange(0, i as int));
    }
    assert(v@ =~= src@);
    v
}

/// The two byte strings are equal.
pub fn bytes_eq(a: &[u8], b: &[u8]) -> (r: bool)
    ensures
        r == (a@ == b@),
{
    if a.len() != b.len() {
        return false;
    }
    let mut i: usize = 0;
    while i < a.len()
        invariant
            a@.len() == b@.len(),
            i <= a@.len(),
            a@.subrange(0, i as int) == b@.subrange(0, i as int),
        decreases a@.len() - i,
    {
        if a[i] != b[i] {
            assert(a@[i as int] != b@[i as int]);
            return false;
        }
        i = i + 1;
        assert(a@.subrange(0, i as int) =~= a@.subrange(0, i as int - 1).push(a@[i - 1]));
        assert(b@.subrange(0, i as int) =~= b@.subrange(0, i as int - 1).push(b@[i - 1]));
    }
    assert(a@ =~= a@.subrange(0, a@.len() as int));
    assert(b@ =~= b@.subrange(0, b@.len() as int));
    true
}

/// `a` sorts before `b`, byte by byte, a proper prefix first.
pub open spec fn bytes_lt(a: Seq<u8>, b: Seq<u8>) -> bool {
    exists|k: int|
        0 <= k <= a.len() && k <= b.len() && a.subrange(0, k) == b.subrange(0, k) && ((k == a.len()
            && k < b.len()) || (k < a.len() && k < b.len() && a[k] < b[k]))
}

/// Compares two byte strings in byte-lexicographic order: -1, 0 or 1.
pub fn bytes_compare(a: &[u8], b: &[u8]) -> (r: i8)
    ensures
        r == 0 <==> a@ == b@,
        r < 0 <==> bytes_lt(a@, b@),
        r > 0 <==> bytes_lt(b@, a@),
        -1 <= r <= 1,
{
    let mut i: usize = 0;
    while i < a.len() && i < b.len()
        invariant
            i <= a@.len(),
            i <= b@.len(),
            a@.subrange(0, i as int) == b@.subrange(0, i as int),
        decreases a@.len() - i,
    {
        if a[i] != b[i] {
            proof {
                lemma_lt_witness_unique(a@, b@, i as int);
            }
            if a[i] < b[i] {
                return -1;
            } else {
                return 1;
            }
        }
        i = i + 1;
        assert(a@.subrange(0, i as int) =~= a@.subrange(0, i as int - 1).push(a@[i - 1]));
        assert(b@.subrange(0, i as int) =~= b@.subrange(0, i as int - 1).push(b@[i - 1]));
    }
    proof {
        lemma_prefix_order(a@, b@, i as int);
    }
    if a.len() < b.len() {
        -1
    } else if a.len() > b.len() {
        1
    } else {
        0
    }
}

/// Where two strings first differ inside both, that byte decides the order.
proof fn lemma_lt_witness_unique(a: Seq<u8>, b: Seq<u8>, i: int)
    requires
        0 <= i < a.len(),
        i < b.len(),
        a.subrange(0, i) == b.subrange(0, i),
        a[i] != b[i],
    ensures
        bytes_lt(a, b) <==> a[i] < b[i],
        bytes_lt(b, a) <==> b[i] < a[i],
        a != b,
{
    if bytes_lt(a, b) {
        let k = choose|k: int|
            0 <= k <= a.len() && k <= b.len() && a.subrange(0, k) == b.subrange(0, k) && ((k
                == a.len() && k < b.len()) || (k < a.len() && k < b.len() && a[k] < b[k]));
        if k > i {
            assert(a.subrange(0, k)[i] == a[i]);
            assert(b.subrange(0, k)[i] == b[i]);
        } else if k < i {
            assert(a.subrange(0, i)[k] == a[k]);
            assert(b.subrange(0, i)[k] == b[k]);
        }
    }
    if bytes_lt(b, a) {
        let k = choose|k: int|
            0 <= k <= b.len() && k <= a.len() && b.subrange(0, k) == a.subrange(0, k) && ((k
                == b.len() && k < a.len()) || (k < b.len() && k < a.len() && b[k] < a[k]));
        if k > i {
            assert(a.subrange(0, k)[i] == a[i]);
            assert(b.subrange(0, k)[i] == b[i]);
        } else if k < i {
            assert(a.subrange(0, i)[k] == a[k]);
            assert(b.subrange(0, i)[k] == b[k]);
        }
    }
    if a[i] < b[i] {
        assert(bytes_lt(a, b));
    }
    if b[i] < a[i] {
        assert(bytes_lt(b, a));
    }
    assert(a[i] != b[i]);
}

/// When one string is a prefix of the other, the shorter sorts first.
proof fn lemma_prefix_order(a: Seq<u8>, b: Seq<u8>, i: int)
    requires
        0 <= i <= a.len(),
        i <= b.len(),
        i == a.len() || i == b.len(),
        a.subrange(0, i) == b.subrange(0, i),
    ensures
        bytes_lt(a, b) <==> a.len() < b.len(),
        bytes_lt(b, a) <==> b.len() < a.len(),
        a == b <==> a.len() == b.len(),
{
    if a.len() == b.len() {
        assert(a =~= a.subrange(0, i));
        assert(b =~= b.subrange(0, i));
    }
    if bytes_lt(a, b) {
        let k = choose|k: int|
            0 <= k <= a.len() && k <= b.len() && a.subrange(0, k) == b.subrange(0, k) && ((k
                == a.len() && k < b.len()) || (k < a.len() && k < b.len() && a[k] < b[k]));
        if k < i {
            assert(a.subrange(0, i)[k] == a[k]);
            assert(b.subrange(0, i)[k] == b[k]);
        }
    }
    if bytes_lt(b, a) {
        let k = choose|k: int|
            0 <= k <= b.len() && k <= a.len() && b.subrange(0, k) == a.subrange(0, k) && ((k
                == b.len() && k < a.len()) || (k < b.len() && k < a.len() && b[k] < a[k]));
        if k < i {
            assert(a.subrange(0, i)[k] == a[k]);
            assert(b.subrange(0, i)[k] == b[k]);
        }
    }
    if a.len() < b.len() {
        assert(bytes_lt(a, b));
    }
    if b.len() < a.len() {
        assert(bytes_lt(b, a));
    }
}

/// No string sorts before itself.
pub proof fn lemma_lt_irreflexive(a: Seq<u8>)
    ensures
        !bytes_lt(a, a),
{
}

/// The byte order is transitive.
pub proof fn lemma_lt_transitive(a: Seq<u8>, b: Seq<u8>, c: Seq<u8>)
    requires
        bytes_lt(a, b),
        bytes_lt(b, c),
    ensures
        bytes_lt(a, c),
{
    let k1 = choose|k: int|
        0 <= k <= a.len() && k <= b.len() && a.subrange(0, k) == b.subrange(0, k) && ((k
            == a.len() && k < b.len()) || (k < a.len() && k < b.len() && a[k] < b[k]));
    let k2 = choose|k: int|
        0 <= k <= b.len() && k <= c.len() && b.subrange(0, k) == c.subrange(0, k) && ((k
            == b.len() && k < c.len()) || (k < b.len() && k < c.len() && b[k] < c[k]));
    let k = if k1 < k2 { k1 } else { k2 };
    assert forall|j: int| 0 <= j < k implies a[j] == c[j] by {
        assert(a.subrange(0, k1)[j] == a[j]);
        assert(b.subrange(0, k1)[j] == b[j]);
        assert(b.subrange(0, k2)[j] == b[j]);
        assert(c.subrange(0, k2)[j] == c[j]);
    }
    assert(a.subrange(0, k) =~= c.subrange(0, k));
    if k1 < k2 {
        assert(b.subrange(0, k2)[k1] == b[k1]);
        assert(c.subrange(0, k2)[k1] == c[k1]);
    } else if k2 < k1 {
        assert(a.subrange(0, k1)[k2] == a[k2]);
        assert(b.subrange(0, k1)[k2] == b[k2]);
    }
}

/// Two different strings are ordered one way or the other.
pub proof fn lemma_lt_total(a: Seq<u8>, b: Seq<u8>)
    requires
        a != b,
    ensures
        bytes_lt(a, b) || bytes_lt(b, a),
{
    assert(a.subrange(0, 0) =~= b.subrange(0, 0));
    lemma_lt_total_from(a, b, 0);
}

proof fn lemma_lt_total_from(a: Seq<u8>, b: Seq<u8>, i: int)
    requires
        a != b,
        0 <= i <= a.len(),
        i <= b.len(),
        a.subrange(0, i) == b.subrange(0, i),
    ensures
        bytes_lt(a, b) || bytes_lt(b, a),
    decreases a.len() - i,
{
    if i == a.len() || i == b.len() {
        lemma_prefix_order(a, b, i);
    } else if a[i] != b[i] {
        lemma_lt_witness_unique(a, b, i);
    } else {
        assert(a.subrange(0, i + 1) =~= a.subrange(0, i).push(a[i]));
        assert(b.subrange(0, i + 1) =~= b.subrange(0, i).push(b[i]));
        lemma_lt_total_from(a, b, i + 1);
    }
}

} // verus!
