use vstd::prelude::*;

verus! {

#[derive(Debug, PartialEq, Eq, Clone, Copy, Structural)]
pub enum FileKind {
    Tty,
    File { node_id: usize },
    Dir { node_id: usize },
}

#[derive(Debug, Clone, Copy, PartialEq, Eq, Structural)]
pub enum FileKindTag {
    Unknown,
    Tty,
    File,
    Dir,
}

pub open spec fn spec_tag_value(t: FileKindTag) -> u8 {
    match t {
        FileKindTag::Unknown => 0,
        FileKindTag::Tty => 1,
        FileKindTag::File => 2,
        FileKindTag::Dir => 3,
    }
}

impl FileKindTag {
    /// The tag's byte in a directory entry.
    pub fn as_u8(self) -> (r: u8)
        ensures
            r == spec_tag_value(self),
    {
        match self {
            FileKindTag::Unknown => 0,
            FileKindTag::Tty => 1,
            FileKindTag::File => 2,
            FileKindTag::Dir => 3,
        }
    }

    pub fn try_from_u8(v: u8) -> (r: Option<FileKindTag>)
        ensures
            match r {
                Some(t) => spec_tag_value(t) == v,
                None => v > 3,
            },
    {
        match v {
            0 => Some(FileKindTag::Unknown),
            1 => Some(FileKindTag::Tty),
            2 => Some(FileKindTag::File),
            3 => Some(FileKindTag::Dir),
            _ => None,
        }
    }
}

pub open spec fn spec_kind_tag(k: FileKind) -> FileKindTag {
    match k {
        FileKind::Tty => FileKindTag::Tty,
        FileKind::File { .. } => FileKindTag::File,
        FileKind::Dir { .. } => FileKindTag::Dir,
    }
}

impl From<FileKind> for FileKindTag {
    fn from(value: FileKind) -> (r: Self) {
        match value {
            FileKind::Tty => FileKindTag::Tty,
            FileKind::File { .. } => FileKindTag::File,
            FileKind::Dir { .. } => FileKindTag::Dir,
        }
    }
}

impl vstd::std_specs::convert::FromSpecImpl<FileKind> for FileKindTag {
    open spec fn obeys_from_spec() -> bool {
        true
    }

    open spec fn from_spec(v: FileKind) -> Self {
        spec_kind_tag(v)
    }
}

/// The fixed header of a directory entry in a `getdents` buffer: the inode as a
/// little-endian u64 at offset 0, the file kind byte at 8, the name length as a
/// little-endian u16 at 10; the name follows at `DIRENT_HEADER_SIZE`.
pub struct DirentHeader {
    pub inode: u64,
    pub ftype: u8,
    pub fname_len: u16,
}

pub const DIRENT_HEADER_SIZE: usize = 16;

/// Byte `k` (little-endian) of `v`.
pub open spec fn le_byte(v: u64, k: int) -> u8 {
    (v >> ((8 * k) as u64)) as u8
}

/// The bytes of one directory entry, padding bytes aside.
pub open spec fn dirent_written(
    before: Seq<u8>,
    after: Seq<u8>,
    offset: int,
    inode: u64,
    ftype: u8,
    fname: Seq<u8>,
) -> bool {
    let n = DIRENT_HEADER_SIZE as int + fname.len();
    &&& after.len() == before.len()
    &&& forall|k: int| 0 <= k < 8 ==> after[offset + k] == le_byte(inode, k)
    &&& after[offset + 8] == ftype
    &&& after[offset + 10] == le_byte((fname.len() % 0x10000) as u64, 0)
    &&& after[offset + 11] == le_byte((fname.len() % 0x10000) as u64, 1)
    &&& forall|k: int| 0 <= k < fname.len() ==> after[offset + DIRENT_HEADER_SIZE + k] == fname[k]
    &&& forall|k: int|
        0 <= k < after.len() && !(offset <= k < offset + 8) && k != offset + 10 && k != offset
            + 11 && k != offset + 8 && !(offset + DIRENT_HEADER_SIZE <= k < offset + n)
            ==> after[k] == before[k]
}

impl DirentHeader {
    /// Writes one directory entry at `offset` of `dst` if it fits below `out_buf_len`,
    /// and returns its size.
    pub fn write_dirent(
        offset: usize,
        dst: &mut [u8],
        inode: u64,
        ftype: u8,
        fname: &[u8],
        out_buf_len: usize,
    ) -> (r: Option<usize>)
        requires
            out_buf_len <= old(dst)@.len(),
            offset + DIRENT_HEADER_SIZE + fname@.len() <= usize::MAX,
        ensures
            offset + DIRENT_HEADER_SIZE + fname@.len() > out_buf_len ==> r is None && final(dst)@
                == old(dst)@,
            offset + DIRENT_HEADER_SIZE + fname@.len() <= out_buf_len ==> r == Some(
                (DIRENT_HEADER_SIZE + fname@.len()) as usize,
            ) && dirent_written(old(dst)@, final(dst)@, offset as int, inode, ftype, fname@),
    {
        let entry_size = DIRENT_HEADER_SIZE + fname.len();
        if offset + entry_size > out_buf_len {
            return None;
        }
        let ghost before = dst@;
        let mut k: usize = 0;
        while k < 8
            invariant
                0 <= k <= 8,
                offset + DIRENT_HEADER_SIZE + fname@.len() <= out_buf_len <= dst@.len(),
                dst@.len() == before.len(),
                forall|j: int| 0 <= j < k ==> dst@[offset + j] == le_byte(inode, j),
                forall|j: int| 0 <= j < dst@.len() && !(offset <= j < offset + k) ==> dst@[j] == before[j],
            decreases 8 - k,
        {
            let shift: u64 = 8 * (k as u64);
            #[verifier::truncate]
            let b = (inode >> shift) as u8;
            dst[offset + k] = b;
            k = k + 1;
        }
        dst[offset + 8] = ftype;
        let len16: u64 = (fname.len() % 0x10000) as u64;
        #[verifier::truncate]
        let lo = len16 as u8;
        #[verifier::truncate]
        let hi = (len16 >> 8) as u8;
        dst[offset + 10] = lo;
        dst[offset + 11] = hi;
        assert(dst@[offset + 8] == ftype);
        assert(dst@[offset + 10] == lo);
        assert(dst@[offset + 11] == hi);
        let ghost mid = dst@;
        let mut j: usize = 0;
        while j < fname.len()
            invariant
                0 <= j <= fname@.len(),
                offset + DIRENT_HEADER_SIZE + fname@.len() <= out_buf_len <= dst@.len(),
                dst@.len() == mid.len(),
                forall|i: int| 0 <= i < j ==> dst@[offset + DIRENT_HEADER_SIZE + i] == fname@[i],
                forall|i: int|
                    0 <= i < dst@.len() && !(offset + DIRENT_HEADER_SIZE <= i < offset
                        + DIRENT_HEADER_SIZE + j) ==> dst@[i] == mid[i],
            decreases fname@.len() - j,
        {
            dst[offset + DIRENT_HEADER_SIZE + j] = fname[j];
            j = j + 1;
        }
        proof {
            assert(len16 >> 0u64 == len16) by (bit_vector);
            assert(le_byte(len16, 0) == lo);
            assert(le_byte(len16, 1) == hi);
            assert forall|k: int| 0 <= k < 8 implies dst@[offset + k] == le_byte(inode, k) by {
                assert(mid[offset + k] == le_byte(inode, k));
            }
            assert(dst@[offset + 8] == ftype);
            assert(dst@[offset + 10] == le_byte((fname@.len() % 0x10000) as u64, 0));
            assert(dst@[offset + 11] == le_byte((fname@.len() % 0x10000) as u64, 1));
            assert(before == old(dst)@);
            let n = DIRENT_HEADER_SIZE as int + fname@.len();
            assert forall|k: int|
                0 <= k < dst@.len() && !(offset <= k < offset + 8) && k != offset + 10 && k != offset
                    + 11 && k != offset + 8 && !(offset + DIRENT_HEADER_SIZE <= k < offset + n)
                    implies dst@[k] == before[k] by {
                assert(dst@[k] == mid[k]);
            }
            assert(dirent_written(before, dst@, offset as int, inode, ftype, fname@));
        }
        Some(entry_size)
    }
}

} // verus!
