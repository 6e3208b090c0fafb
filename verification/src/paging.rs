//! The boot page tables: four-level x86-64 tables built in frames taken from the
//! boot allocator, with 2 MiB and 4 KiB mappings and the split of a 2 MiB mapping
//! when a 4 KiB page inside it is remapped.
//!
//! The frames that hold tables are modelled as a map from frame address to the
//! table's 512 entries. A table is reached from the root through entries whose
//! address bits name the next table, exactly as the processor walks them.
use vstd::prelude::*;
use crate::boot::{KernelLoadInfo, LoadedSegment};
use crate::shared::{
    align_down, align_down_2mb, align_up, align_up_2mb, early_usable, lemma_round_up_page,
    round_down, round_up, spec_early_usable, BootInfo, FramebufferInfo, MemoryRegion,
    BOOTINFO_VIRT_BASE, FRAMEBUFFER_VIRT_BASE, KERNEL_STACK_STRIDE,
    KERNEL_STACK_VIRT_BASE, PHYS_OFFSET, PhysicalAllocator, PAGE_SIZE, PAGE_SIZE_2M, MAX_BOOT_PHYS,
    LOW_MEMORY_LIMIT,
};

verus! {

pub const PRESENT: u64 = 0x1;
pub const WRITE: u64 = 0x2;
pub const PTE_PWT: u64 = 0x8;
pub const PTE_PCD: u64 = 0x10;
pub const NX: u64 = 0x8000_0000_0000_0000;
pub const HUGE_PAGE: u64 = 0x80;
pub const PDE_PAT: u64 = 0x1000;
pub const PTE_PAT: u64 = 0x80;
pub const MMIO_FLAGS: u64 = 0x1B;
pub const DEFAULT_FLAG: u64 = 0x3;
pub const PAGE_TABLE_ADDR_MASK: u64 = 0x000F_FFFF_FFFF_F000;
pub const HUGE_PAGE_ADDR_MASK: u64 = 0x000F_FFFF_FFE0_0000;
pub const FLAGS_MASK: u64 = 0xFFF0_0000_0000_0FFF;

/// One page-table frame: 512 entries.
#[derive(Clone, Copy)]
pub struct PageTable {
    pub entries: [u64; 512],
}

/// What the loader hands on after building the tables.
pub struct BootPageTablesInfo {
    pub pml4_phys: u64,
    pub bootinfo_virt: u64,
    pub kernel_stack_top: u64,
}

/// The boot allocator had no frame left for a page table.
#[derive(Debug, Clone, Copy, PartialEq, Eq, Structural)]
pub struct OutOfFrames;

// ---------------------------------------------------------------------------
// Addresses and entries
// ---------------------------------------------------------------------------

pub open spec fn l4_index(va: u64) -> int {
    ((va >> 39u64) & 0x1FFu64) as int
}

pub open spec fn l3_index(va: u64) -> int {
    ((va >> 30u64) & 0x1FFu64) as int
}

pub open spec fn l2_index(va: u64) -> int {
    ((va >> 21u64) & 0x1FFu64) as int
}

pub open spec fn l1_index(va: u64) -> int {
    ((va >> 12u64) & 0x1FFu64) as int
}

/// The number of the 4 KiB page that `va` falls in, within the 48-bit space that
/// four levels of tables translate.
pub open spec fn page_number(va: u64) -> int {
    ((va >> 12u64) & 0xF_FFFF_FFFFu64) as int
}

/// The number of the 2 MiB page that `va` falls in.
pub open spec fn huge_number(va: u64) -> int {
    ((va >> 21u64) & 0x7FF_FFFFu64) as int
}

/// The address of the next table named by a table entry.
pub open spec fn entry_table(e: u64) -> u64 {
    e & PAGE_TABLE_ADDR_MASK
}

pub open spec fn is_huge(e: u64) -> bool {
    e & HUGE_PAGE != 0
}

/// The flags that a 4 KiB entry carved out of the 2 MiB entry `pde` gets: the
/// same flags without the size bit, with the attribute bit moved to its 4 KiB
/// position.
pub open spec fn split_flags(pde: u64) -> u64 {
    let f = (pde & FLAGS_MASK) & !HUGE_PAGE;
    if pde & PDE_PAT != 0 {
        f | PTE_PAT
    } else {
        f
    }
}

/// The 4 KiB entry for page `i` of the 2 MiB mapping `pde`.
pub open spec fn split_entry(pde: u64, i: int) -> u64 {
    (((pde & HUGE_PAGE_ADDR_MASK) + i * 4096) as u64) | split_flags(pde)
}

/// The directory-pointer table that the walk for `va` reaches.
pub open spec fn walk3(m: Map<u64, Seq<u64>>, root: u64, va: u64) -> u64 {
    entry_table(m[root][l4_index(va)])
}

/// The directory that the walk for `va` reaches.
pub open spec fn walk2(m: Map<u64, Seq<u64>>, root: u64, va: u64) -> u64 {
    entry_table(m[walk3(m, root, va)][l3_index(va)])
}

/// The table of 4 KiB entries that the walk for `va` reaches.
pub open spec fn walk1(m: Map<u64, Seq<u64>>, root: u64, va: u64) -> u64 {
    entry_table(m[walk2(m, root, va)][l2_index(va)])
}

/// The entry that translates the 4 KiB page of `va`, written as a 4 KiB entry:
/// 0 where the walk from `root` meets an empty entry, the 4 KiB entry itself, or
/// the page's share of a 2 MiB entry.
pub open spec fn page_entry(m: Map<u64, Seq<u64>>, root: u64, va: u64) -> u64 {
    let e4 = m[root][l4_index(va)];
    if e4 == 0 {
        0
    } else {
        let e3 = m[walk3(m, root, va)][l3_index(va)];
        if e3 == 0 {
            0
        } else {
            let e2 = m[walk2(m, root, va)][l2_index(va)];
            if e2 == 0 {
                0
            } else if is_huge(e2) {
                split_entry(e2, l1_index(va))
            } else {
                m[walk1(m, root, va)][l1_index(va)]
            }
        }
    }
}

// ---------------------------------------------------------------------------
// Bits
// ---------------------------------------------------------------------------

proof fn lemma_index_bits(va: u64)
    by (bit_vector)
    ensures
        (va >> 39u64) & 0x1FFu64 < 512,
        (va >> 30u64) & 0x1FFu64 < 512,
        (va >> 21u64) & 0x1FFu64 < 512,
        (va >> 12u64) & 0x1FFu64 < 512,
        (va >> 12u64) & 0xF_FFFF_FFFFu64 == ((va >> 21u64) & 0x7FF_FFFFu64) * 512 + ((va >> 12u64)
            & 0x1FFu64),
        (va >> 21u64) & 0x7FF_FFFFu64 == ((va >> 39u64) & 0x1FFu64) * 0x40000 + ((va >> 30u64)
            & 0x1FFu64) * 0x200 + ((va >> 21u64) & 0x1FFu64),
{
}

/// The four table indices of an address, and how they make up its page numbers.
pub proof fn lemma_indices(va: u64)
    ensures
        0 <= l4_index(va) < 512,
        0 <= l3_index(va) < 512,
        0 <= l2_index(va) < 512,
        0 <= l1_index(va) < 512,
        huge_number(va) == l4_index(va) * 0x40000 + l3_index(va) * 0x200 + l2_index(va),
        page_number(va) == huge_number(va) * 512 + l1_index(va),
{
    lemma_index_bits(va);
}

/// Two addresses lie in one 4 KiB page exactly when their four indices agree, and in
/// one 2 MiB page exactly when their upper three agree.
pub proof fn lemma_same_page(a: u64, b: u64)
    ensures
        page_number(a) == page_number(b) <==> (l4_index(a) == l4_index(b) && l3_index(a)
            == l3_index(b) && l2_index(a) == l2_index(b) && l1_index(a) == l1_index(b)),
        huge_number(a) == huge_number(b) <==> (l4_index(a) == l4_index(b) && l3_index(a)
            == l3_index(b) && l2_index(a) == l2_index(b)),
{
    lemma_indices(a);
    lemma_indices(b);
}

/// The translation of an address depends on its 4 KiB page alone.
pub proof fn lemma_entry_by_page(m: Map<u64, Seq<u64>>, root: u64, a: u64, b: u64)
    requires
        page_number(a) == page_number(b),
    ensures
        page_entry(m, root, a) == page_entry(m, root, b),
{
    lemma_same_page(a, b);
}

proof fn lemma_link_bits(f: u64, flags: u64)
    by (bit_vector)
    requires
        f & 0xFFFu64 == 0,
        f < 0x1_0000_0000u64,
        f != 0,
        flags & 0x000F_FFFF_FFFF_F000u64 == 0,
        flags & 0x80u64 == 0,
    ensures
        (f | flags) & 0x000F_FFFF_FFFF_F000u64 == f,
        (f | flags) & 0x80u64 == 0,
        (f | flags) != 0,
{
}

proof fn lemma_table_entry_bits(f: u64)
    by (bit_vector)
    requires
        f & 0xFFFu64 == 0,
        f < 0x1_0000_0000u64,
        f != 0,
    ensures
        ((f | 0x1u64) | 0x2u64) & 0x000F_FFFF_FFFF_F000u64 == f,
        ((f | 0x1u64) | 0x2u64) & 0x80u64 == 0,
        ((f | 0x1u64) | 0x2u64) != 0,
{
}

proof fn lemma_huge_number_bits(pa: u64)
    by (bit_vector)
    requires
        pa < 0x1_0000_0000_0000u64,
    ensures
        (pa >> 21u64) & 0x7FF_FFFFu64 == pa / 0x200000,
{
}

proof fn lemma_next_page_bits(x: u64)
    by (bit_vector)
    requires
        x <= 0xFFFF_FFFF_FFFF_EFFFu64,
    ensures
        (((x + 0x1000u64) as u64) >> 12u64) & 0xF_FFFF_FFFFu64 == (((x >> 12u64) & 0xF_FFFF_FFFFu64)
            + 1) % 0x10_0000_0000,
{
}

proof fn lemma_direct_map_bits(pa: u64)
    by (bit_vector)
    requires
        pa < 0x8000_0000_0000u64,
    ensures
        (((0xFFFF_8000_0000_0000u64 + pa) as u64) >> 21u64) & 0x7FF_FFFFu64 == 0x400_0000
            + pa / 0x200000,
{
}

proof fn lemma_page_low_bits(x: u64)
    by (bit_vector)
    ensures
        x & 0xFFFu64 == x % 4096,
{
}

proof fn lemma_stack_page_bits(i: u64)
    by (bit_vector)
    requires
        i <= 0x101,
    ensures
        (((0xFFFF_FFFF_9000_0000u64 + i * 4096) as u64) >> 12u64) & 0xF_FFFF_FFFFu64 == 0xF_FFF9_0000
            + i,
{
}

proof fn lemma_distinct_frame_entries(a: u64, b: u64)
    by (bit_vector)
    requires
        a & 0xFFFu64 == 0,
        b & 0xFFFu64 == 0,
        a != b,
    ensures
        a | 0x3u64 != b | 0x3u64,
{
}

proof fn lemma_huge_nonzero(v: u64)
    by (bit_vector)
    requires
        v & 0x80u64 != 0,
    ensures
        v != 0,
{
}

proof fn lemma_frame_low_bits(f: u64)
    by (bit_vector)
    requires
        f % 4096 == 0,
    ensures
        f & 0xFFFu64 == 0,
{
}

proof fn lemma_mask_bits(e: u64)
    by (bit_vector)
    ensures
        ((e & 0xFFF0_0000_0000_0FFFu64) & !0x80u64) & 0x000F_FFFF_FFFF_F000u64 == 0,
        ((e & 0xFFF0_0000_0000_0FFFu64) & !0x80u64) & 0x80u64 == 0,
        (e & 0x000F_FFFF_FFE0_0000u64) <= 0x000F_FFFF_FFE0_0000u64,
        (e | 0x80u64) & 0x80u64 != 0,
{
}

// ---------------------------------------------------------------------------
// Walks
// ---------------------------------------------------------------------------

/// Along the walk for `va`, each non-empty entry names an existing table one level down.
pub proof fn lemma_walk(m: Map<u64, Seq<u64>>, lv: Map<u64, int>, root: u64, va: u64)
    requires
        tables_wf(m, lv, root),
    ensures
        0 <= l4_index(va) < 512,
        0 <= l3_index(va) < 512,
        0 <= l2_index(va) < 512,
        0 <= l1_index(va) < 512,
        m[root][l4_index(va)] != 0 ==> points_down(m, lv, root, l4_index(va)) && m.dom().contains(
            walk3(m, root, va),
        ) && lv[walk3(m, root, va)] == 3,
        m[root][l4_index(va)] != 0 && m[walk3(m, root, va)][l3_index(va)] != 0 ==> points_down(
            m,
            lv,
            walk3(m, root, va),
            l3_index(va),
        ) && m.dom().contains(walk2(m, root, va)) && lv[walk2(m, root, va)] == 2,
        m[root][l4_index(va)] != 0 && m[walk3(m, root, va)][l3_index(va)] != 0 && m[walk2(
            m,
            root,
            va,
        )][l2_index(va)] != 0 && !is_huge(m[walk2(m, root, va)][l2_index(va)]) ==> points_down(
            m,
            lv,
            walk2(m, root, va),
            l2_index(va),
        ) && m.dom().contains(walk1(m, root, va)) && lv[walk1(m, root, va)] == 1,
{
    lemma_indices(va);
    let i4 = l4_index(va);
    let i3 = l3_index(va);
    let i2 = l2_index(va);
    if m[root][i4] != 0 {
        assert(points_down(m, lv, root, i4));
        let t3 = walk3(m, root, va);
        if m[t3][i3] != 0 {
            assert(points_down(m, lv, t3, i3));
            let t2 = walk2(m, root, va);
            if m[t2][i2] != 0 && !is_huge(m[t2][i2]) {
                assert(points_down(m, lv, t2, i2));
            }
        }
    }
}

/// Two walks that reach the same directory-pointer table, directory or table of
/// 4 KiB entries went through the same entries above it.
pub proof fn lemma_walks_meet(m: Map<u64, Seq<u64>>, lv: Map<u64, int>, root: u64, a: u64, b: u64)
    requires
        tables_wf(m, lv, root),
    ensures
        m[root][l4_index(a)] != 0 && m[root][l4_index(b)] != 0 && walk3(m, root, a) == walk3(
            m,
            root,
            b,
        ) ==> l4_index(a) == l4_index(b),
        m[root][l4_index(a)] != 0 && m[root][l4_index(b)] != 0 && m[walk3(m, root, a)][l3_index(a)]
            != 0 && m[walk3(m, root, b)][l3_index(b)] != 0 && walk2(m, root, a) == walk2(m, root, b)
            ==> l4_index(a) == l4_index(b) && l3_index(a) == l3_index(b),
        m[root][l4_index(a)] != 0 && m[root][l4_index(b)] != 0 && m[walk3(m, root, a)][l3_index(a)]
            != 0 && m[walk3(m, root, b)][l3_index(b)] != 0 && m[walk2(m, root, a)][l2_index(a)] != 0
            && m[walk2(m, root, b)][l2_index(b)] != 0 && !is_huge(m[walk2(m, root, a)][l2_index(a)])
            && !is_huge(m[walk2(m, root, b)][l2_index(b)]) && walk1(m, root, a) == walk1(m, root, b)
            ==> l4_index(a) == l4_index(b) && l3_index(a) == l3_index(b) && l2_index(a) == l2_index(
            b,
        ),
{
    lemma_walk(m, lv, root, a);
    lemma_walk(m, lv, root, b);
    let t3a = walk3(m, root, a);
    let t3b = walk3(m, root, b);
    let t2a = walk2(m, root, a);
    let t2b = walk2(m, root, b);
    if m[root][l4_index(a)] != 0 && m[root][l4_index(b)] != 0 {
        if t3a == t3b {
            assert(points_down(m, lv, root, l4_index(a)));
            assert(points_down(m, lv, root, l4_index(b)));
        }
        if m[t3a][l3_index(a)] != 0 && m[t3b][l3_index(b)] != 0 {
            if t2a == t2b {
                assert(points_down(m, lv, t3a, l3_index(a)));
                assert(points_down(m, lv, t3b, l3_index(b)));
                assert(t3a == t3b);
                assert(points_down(m, lv, root, l4_index(a)));
                assert(points_down(m, lv, root, l4_index(b)));
            }
            if m[t2a][l2_index(a)] != 0 && m[t2b][l2_index(b)] != 0 && !is_huge(m[t2a][l2_index(a)])
                && !is_huge(m[t2b][l2_index(b)]) && walk1(m, root, a) == walk1(m, root, b) {
                assert(points_down(m, lv, t2a, l2_index(a)));
                assert(points_down(m, lv, t2b, l2_index(b)));
                assert(t2a == t2b);
                assert(points_down(m, lv, t3a, l3_index(a)));
                assert(points_down(m, lv, t3b, l3_index(b)));
                assert(t3a == t3b);
                assert(points_down(m, lv, root, l4_index(a)));
                assert(points_down(m, lv, root, l4_index(b)));
            }
        }
    }
}

// ---------------------------------------------------------------------------
// The shape of the tables
// ---------------------------------------------------------------------------

/// Entry `i` of table `t` names a table one level down: a non-empty entry of a
/// top-level or directory-pointer table, or a non-empty entry of a directory that
/// does not map 2 MiB itself.
pub open spec fn points_down(m: Map<u64, Seq<u64>>, lv: Map<u64, int>, t: u64, i: int) -> bool {
    lv[t] >= 2 && m[t][i] != 0 && !(lv[t] == 2 && is_huge(m[t][i]))
}

/// No entry names table `f`.
pub open spec fn unreferenced(m: Map<u64, Seq<u64>>, lv: Map<u64, int>, f: u64) -> bool {
    forall|t: u64, i: int|
        m.dom().contains(t) && 0 <= i < 512 && #[trigger] points_down(m, lv, t, i) ==> entry_table(
            m[t][i],
        ) != f
}

/// The tables form a tree under `root`: every table has 512 entries and a level
/// (4 for the root), every entry that names a table names one that exists one level
/// down, and no table is named twice.
pub open spec fn tables_wf(m: Map<u64, Seq<u64>>, lv: Map<u64, int>, root: u64) -> bool {
    &&& forall|f: u64| #[trigger] m.dom().contains(f) <==> lv.dom().contains(f)
    &&& m.dom().contains(root)
    &&& lv[root] == 4
    &&& forall|t: u64| #[trigger] m.dom().contains(t) ==> m[t].len() == 512 && 1 <= lv[t] <= 4
    &&& forall|t: u64, i: int|
        m.dom().contains(t) && 0 <= i < 512 && #[trigger] points_down(m, lv, t, i) ==> {
            let c = entry_table(m[t][i]);
            m.dom().contains(c) && lv[c] == lv[t] - 1
        }
    &&& forall|t1: u64, i1: int, t2: u64, i2: int|
        m.dom().contains(t1) && m.dom().contains(t2) && 0 <= i1 < 512 && 0 <= i2 < 512
            && #[trigger] points_down(m, lv, t1, i1) && #[trigger] points_down(m, lv, t2, i2)
            && entry_table(m[t1][i1]) == entry_table(m[t2][i2]) ==> t1 == t2 && i1 == i2
}

// ---------------------------------------------------------------------------
// What each change to the tables does
// ---------------------------------------------------------------------------

/// The tables with entry `i` of table `t` set to `v`.
pub open spec fn set_entry(m: Map<u64, Seq<u64>>, t: u64, i: int, v: u64) -> Map<u64, Seq<u64>> {
    m.insert(t, m[t].update(i, v))
}

/// Placing a table in a new frame, empty unless it holds 4 KiB entries, keeps the
/// tree, names no table, and changes no translation.
pub proof fn lemma_add_table(
    m: Map<u64, Seq<u64>>,
    lv: Map<u64, int>,
    root: u64,
    f: u64,
    t: Seq<u64>,
    level: int,
)
    requires
        tables_wf(m, lv, root),
        !m.dom().contains(f),
        t.len() == 512,
        1 <= level <= 3,
        level == 1 || forall|i: int| 0 <= i < 512 ==> t[i] == 0,
    ensures
        tables_wf(m.insert(f, t), lv.insert(f, level), root),
        unreferenced(m.insert(f, t), lv.insert(f, level), f),
        forall|va: u64| #[trigger] page_entry(m.insert(f, t), root, va) == page_entry(m, root, va),
{
    let m2 = m.insert(f, t);
    let lv2 = lv.insert(f, level);
    assert forall|x: u64, i: int| m2.dom().contains(x) && 0 <= i < 512 implies #[trigger] points_down(
        m2,
        lv2,
        x,
        i,
    ) == (x != f && points_down(m, lv, x, i)) by {
        if x == f {
            if level != 1 {
                assert(t[i] == 0);
            }
        }
    }
    assert forall|x: u64, i: int|
        m2.dom().contains(x) && 0 <= i < 512 && #[trigger] points_down(m2, lv2, x, i) implies {
        let c = entry_table(m2[x][i]);
        m2.dom().contains(c) && lv2[c] == lv2[x] - 1 && c != f
    } by {
        assert(points_down(m, lv, x, i));
    }
    assert forall|t1: u64, i1: int, t2: u64, i2: int|
        m2.dom().contains(t1) && m2.dom().contains(t2) && 0 <= i1 < 512 && 0 <= i2 < 512
            && #[trigger] points_down(m2, lv2, t1, i1) && #[trigger] points_down(m2, lv2, t2, i2)
            && entry_table(m2[t1][i1]) == entry_table(m2[t2][i2]) implies t1 == t2 && i1 == i2 by {
        assert(points_down(m, lv, t1, i1));
        assert(points_down(m, lv, t2, i2));
    }
    assert forall|x: u64| #[trigger] m2.dom().contains(x) implies m2[x].len() == 512 && 1 <= lv2[x]
        <= 4 by {
        if x != f {
            assert(m.dom().contains(x));
        }
    }
    assert forall|va: u64| #[trigger] page_entry(m2, root, va) == page_entry(m, root, va) by {
        lemma_walk(m, lv, root, va);
    }
}

/// Pointing an empty entry of a table at an empty, unnamed table one level down
/// keeps the tree and changes no translation.
pub proof fn lemma_link(
    m: Map<u64, Seq<u64>>,
    lv: Map<u64, int>,
    root: u64,
    c: u64,
    j: int,
    f: u64,
    v: u64,
)
    requires
        tables_wf(m, lv, root),
        m.dom().contains(c),
        lv[c] >= 2,
        0 <= j < 512,
        m[c][j] == 0,
        m.dom().contains(f),
        lv[f] == lv[c] - 1,
        unreferenced(m, lv, f),
        forall|i: int| 0 <= i < 512 ==> m[f][i] == 0,
        v != 0,
        entry_table(v) == f,
        !is_huge(v),
    ensures
        tables_wf(m.insert(c, m[c].update(j, v)), lv, root),
        forall|va: u64| #[trigger] page_entry(m.insert(c, m[c].update(j, v)), root, va)
            == page_entry(m, root, va),
{
    let m2 = m.insert(c, m[c].update(j, v));
    assert forall|x: u64, i: int| m2.dom().contains(x) && 0 <= i < 512 implies #[trigger] points_down(
        m2,
        lv,
        x,
        i,
    ) == ((x == c && i == j) || points_down(m, lv, x, i)) by {
        if x == c && i != j {
            assert(m2[x][i] == m[x][i]);
        }
    }
    assert forall|x: u64, i: int|
        m2.dom().contains(x) && 0 <= i < 512 && #[trigger] points_down(m2, lv, x, i) implies {
        let ch = entry_table(m2[x][i]);
        m2.dom().contains(ch) && lv[ch] == lv[x] - 1
    } by {
        if !(x == c && i == j) {
            assert(points_down(m, lv, x, i));
            if x == c {
                assert(m2[x][i] == m[x][i]);
            }
        }
    }
    assert forall|t1: u64, i1: int, t2: u64, i2: int|
        m2.dom().contains(t1) && m2.dom().contains(t2) && 0 <= i1 < 512 && 0 <= i2 < 512
            && #[trigger] points_down(m2, lv, t1, i1) && #[trigger] points_down(m2, lv, t2, i2)
            && entry_table(m2[t1][i1]) == entry_table(m2[t2][i2]) implies t1 == t2 && i1 == i2 by {
        let a = t1 == c && i1 == j;
        let b = t2 == c && i2 == j;
        if !a {
            assert(points_down(m, lv, t1, i1));
            assert(m2[t1][i1] == m[t1][i1]);
        }
        if !b {
            assert(points_down(m, lv, t2, i2));
            assert(m2[t2][i2] == m[t2][i2]);
        }
    }
    assert forall|x: u64| #[trigger] m2.dom().contains(x) implies m2[x].len() == 512 && 1 <= lv[x]
        <= 4 by {
        assert(m.dom().contains(x));
    }
    assert forall|va: u64| #[trigger] page_entry(m2, root, va) == page_entry(m, root, va) by {
        lemma_walk(m, lv, root, va);
        let i4 = l4_index(va);
        let i3 = l3_index(va);
        let i2 = l2_index(va);
        let i1 = l1_index(va);
        if m[root][i4] != 0 {
            let t3 = walk3(m, root, va);
            if m[t3][i3] != 0 {
                let t2 = walk2(m, root, va);
                if m[t2][i2] != 0 && !is_huge(m[t2][i2]) {
                    let t1 = walk1(m, root, va);
                    assert(t1 != c);
                }
            }
        }
    }
}

/// Writing the 4 KiB entry that the walk for `va` ends in maps that page to the
/// entry and leaves every other page as it was.
pub proof fn lemma_leaf_write(m: Map<u64, Seq<u64>>, lv: Map<u64, int>, root: u64, va: u64, v: u64)
    requires
        tables_wf(m, lv, root),
        m[root][l4_index(va)] != 0,
        m[walk3(m, root, va)][l3_index(va)] != 0,
        m[walk2(m, root, va)][l2_index(va)] != 0,
        !is_huge(m[walk2(m, root, va)][l2_index(va)]),
    ensures
        tables_wf(set_entry(m, walk1(m, root, va), l1_index(va), v), lv, root),
        page_entry(set_entry(m, walk1(m, root, va), l1_index(va), v), root, va) == v,
        forall|vb: u64|
            page_number(vb) != page_number(va) ==> #[trigger] page_entry(
                set_entry(m, walk1(m, root, va), l1_index(va), v),
                root,
                vb,
            ) == page_entry(m, root, vb),
{
    lemma_walk(m, lv, root, va);
    let c = walk1(m, root, va);
    let j = l1_index(va);
    let m2 = set_entry(m, c, j, v);
    assert forall|x: u64, i: int| m2.dom().contains(x) && 0 <= i < 512 implies #[trigger] points_down(
        m2,
        lv,
        x,
        i,
    ) == points_down(m, lv, x, i) by {
        if x == c {
            assert(lv[x] == 1);
        }
    }
    assert forall|x: u64, i: int|
        m2.dom().contains(x) && 0 <= i < 512 && #[trigger] points_down(m2, lv, x, i) implies {
        let ch = entry_table(m2[x][i]);
        m2.dom().contains(ch) && lv[ch] == lv[x] - 1
    } by {
        assert(points_down(m, lv, x, i));
    }
    assert forall|t1: u64, i1: int, t2: u64, i2: int|
        m2.dom().contains(t1) && m2.dom().contains(t2) && 0 <= i1 < 512 && 0 <= i2 < 512
            && #[trigger] points_down(m2, lv, t1, i1) && #[trigger] points_down(m2, lv, t2, i2)
            && entry_table(m2[t1][i1]) == entry_table(m2[t2][i2]) implies t1 == t2 && i1 == i2 by {
        assert(points_down(m, lv, t1, i1));
        assert(points_down(m, lv, t2, i2));
    }
    assert forall|x: u64| #[trigger] m2.dom().contains(x) implies m2[x].len() == 512 && 1 <= lv[x]
        <= 4 by {
        assert(m.dom().contains(x));
    }
    assert forall|vb: u64| page_number(vb) != page_number(va) implies #[trigger] page_entry(
        m2,
        root,
        vb,
    ) == page_entry(m, root, vb) by {
        lemma_walk(m, lv, root, vb);
        lemma_walks_meet(m, lv, root, va, vb);
        lemma_same_page(va, vb);
    }
}

/// Writing a 2 MiB entry into the directory that the walk for `va` reaches maps
/// every page of that 2 MiB page through the entry and leaves every other page as
/// it was.
pub proof fn lemma_huge_write(m: Map<u64, Seq<u64>>, lv: Map<u64, int>, root: u64, va: u64, v: u64)
    requires
        tables_wf(m, lv, root),
        m[root][l4_index(va)] != 0,
        m[walk3(m, root, va)][l3_index(va)] != 0,
        is_huge(v),
    ensures
        tables_wf(set_entry(m, walk2(m, root, va), l2_index(va), v), lv, root),
        forall|vb: u64|
            #[trigger] page_entry(set_entry(m, walk2(m, root, va), l2_index(va), v), root, vb) == (
            if huge_number(vb) == huge_number(va) {
                split_entry(v, l1_index(vb))
            } else {
                page_entry(m, root, vb)
            }),
{
    lemma_walk(m, lv, root, va);
    let c = walk2(m, root, va);
    let j = l2_index(va);
    let m2 = set_entry(m, c, j, v);
    assert forall|x: u64, i: int| m2.dom().contains(x) && 0 <= i < 512 implies #[trigger] points_down(
        m2,
        lv,
        x,
        i,
    ) == (!(x == c && i == j) && points_down(m, lv, x, i)) by {
        if x == c && i != j {
            assert(m2[x][i] == m[x][i]);
        }
    }
    assert forall|x: u64, i: int|
        m2.dom().contains(x) && 0 <= i < 512 && #[trigger] points_down(m2, lv, x, i) implies {
        let ch = entry_table(m2[x][i]);
        m2.dom().contains(ch) && lv[ch] == lv[x] - 1
    } by {
        assert(points_down(m, lv, x, i));
        assert(m2[x][i] == m[x][i]);
    }
    assert forall|t1: u64, i1: int, t2: u64, i2: int|
        m2.dom().contains(t1) && m2.dom().contains(t2) && 0 <= i1 < 512 && 0 <= i2 < 512
            && #[trigger] points_down(m2, lv, t1, i1) && #[trigger] points_down(m2, lv, t2, i2)
            && entry_table(m2[t1][i1]) == entry_table(m2[t2][i2]) implies t1 == t2 && i1 == i2 by {
        assert(points_down(m, lv, t1, i1));
        assert(points_down(m, lv, t2, i2));
        assert(m2[t1][i1] == m[t1][i1]);
        assert(m2[t2][i2] == m[t2][i2]);
    }
    assert forall|x: u64| #[trigger] m2.dom().contains(x) implies m2[x].len() == 512 && 1 <= lv[x]
        <= 4 by {
        assert(m.dom().contains(x));
    }
    assert forall|vb: u64| #[trigger] page_entry(m2, root, vb) == (if huge_number(vb) == huge_number(
        va,
    ) {
        split_entry(v, l1_index(vb))
    } else {
        page_entry(m, root, vb)
    }) by {
        lemma_walk(m, lv, root, vb);
        lemma_walks_meet(m, lv, root, va, vb);
        lemma_same_page(va, vb);
        assert(root != c);
        assert(m2[root] == m[root]);
        assert(walk3(m2, root, vb) == walk3(m, root, vb));
        if m[root][l4_index(vb)] != 0 {
            let t3 = walk3(m, root, vb);
            assert(t3 != c);
            assert(m2[t3] == m[t3]);
            assert(walk2(m2, root, vb) == walk2(m, root, vb));
            if m[t3][l3_index(vb)] != 0 {
                let t2 = walk2(m, root, vb);
                if huge_number(vb) == huge_number(va) {
                    assert(t2 == c);
                    assert(m2[t2][l2_index(vb)] == v);
                    lemma_huge_nonzero(v);
                } else {
                    assert(m2[t2][l2_index(vb)] == m[t2][l2_index(vb)]);
                    assert(walk1(m2, root, vb) == walk1(m, root, vb));
                    let e2 = m[t2][l2_index(vb)];
                    if e2 != 0 && !is_huge(e2) {
                        let t1 = walk1(m, root, vb);
                        assert(t1 != c);
                        assert(m2[t1] == m[t1]);
                    }
                }
            }
        }
    }
}

/// Pointing the 2 MiB entry that the walk for `va` reaches at an unnamed table that
/// holds its 512 pages as 4 KiB entries keeps the tree and changes no translation.
pub proof fn lemma_split_link(
    m: Map<u64, Seq<u64>>,
    lv: Map<u64, int>,
    root: u64,
    va: u64,
    f: u64,
    v: u64,
)
    requires
        tables_wf(m, lv, root),
        m[root][l4_index(va)] != 0,
        m[walk3(m, root, va)][l3_index(va)] != 0,
        m[walk2(m, root, va)][l2_index(va)] != 0,
        is_huge(m[walk2(m, root, va)][l2_index(va)]),
        m.dom().contains(f),
        lv[f] == 1,
        unreferenced(m, lv, f),
        forall|i: int|
            0 <= i < 512 ==> #[trigger] m[f][i] == split_entry(m[walk2(m, root, va)][l2_index(va)], i),
        v != 0,
        entry_table(v) == f,
        !is_huge(v),
    ensures
        tables_wf(set_entry(m, walk2(m, root, va), l2_index(va), v), lv, root),
        forall|vb: u64| #[trigger] page_entry(set_entry(m, walk2(m, root, va), l2_index(va), v), root, vb)
            == page_entry(m, root, vb),
{
    lemma_walk(m, lv, root, va);
    let c = walk2(m, root, va);
    let j = l2_index(va);
    let m2 = set_entry(m, c, j, v);
    assert(f != c);
    assert forall|x: u64, i: int| m2.dom().contains(x) && 0 <= i < 512 implies #[trigger] points_down(
        m2,
        lv,
        x,
        i,
    ) == ((x == c && i == j) || points_down(m, lv, x, i)) by {
        if x == c && i != j {
            assert(m2[x][i] == m[x][i]);
        }
    }
    assert forall|x: u64, i: int|
        m2.dom().contains(x) && 0 <= i < 512 && #[trigger] points_down(m2, lv, x, i) implies {
        let ch = entry_table(m2[x][i]);
        m2.dom().contains(ch) && lv[ch] == lv[x] - 1
    } by {
        if !(x == c && i == j) {
            assert(points_down(m, lv, x, i));
            assert(m2[x][i] == m[x][i]);
        }
    }
    assert forall|t1: u64, i1: int, t2: u64, i2: int|
        m2.dom().contains(t1) && m2.dom().contains(t2) && 0 <= i1 < 512 && 0 <= i2 < 512
            && #[trigger] points_down(m2, lv, t1, i1) && #[trigger] points_down(m2, lv, t2, i2)
            && entry_table(m2[t1][i1]) == entry_table(m2[t2][i2]) implies t1 == t2 && i1 == i2 by {
        let a = t1 == c && i1 == j;
        let b = t2 == c && i2 == j;
        if !a {
            assert(points_down(m, lv, t1, i1));
            assert(m2[t1][i1] == m[t1][i1]);
        }
        if !b {
            assert(points_down(m, lv, t2, i2));
            assert(m2[t2][i2] == m[t2][i2]);
        }
    }
    assert forall|x: u64| #[trigger] m2.dom().contains(x) implies m2[x].len() == 512 && 1 <= lv[x]
        <= 4 by {
        assert(m.dom().contains(x));
    }
    assert forall|vb: u64| #[trigger] page_entry(m2, root, vb) == page_entry(m, root, vb) by {
        lemma_walk(m, lv, root, vb);
        lemma_walks_meet(m, lv, root, va, vb);
        lemma_same_page(va, vb);
        if m[root][l4_index(vb)] != 0 && m[walk3(m, root, vb)][l3_index(vb)] != 0 && m[walk2(m, root, vb)][l2_index(vb)] != 0 && !is_huge(m[walk2(m, root, vb)][l2_index(vb)]) {
            assert(walk1(m, root, vb) != f);
        }
        if huge_number(vb) == huge_number(va) {
            assert(m2[f][l1_index(vb)] == split_entry(m[c][j], l1_index(vb)));
        }
    }
}

/// Every frame that allocator `a` had handed out, `b` has handed out too.
pub open spec fn claims_grow(a: PhysicalAllocator, b: PhysicalAllocator) -> bool {
    forall|f: u64| a.claimed(f) ==> #[trigger] b.claimed(f)
}

// ---------------------------------------------------------------------------
// The frames that hold tables
// ---------------------------------------------------------------------------

/// The page-table frames built so far and their contents.
pub struct TableMemory {
    frames: Vec<u64>,
    tables: Vec<PageTable>,
    contents: Ghost<Map<u64, Seq<u64>>>,
    levels: Ghost<Map<u64, int>>,
}

impl View for TableMemory {
    type V = Map<u64, Seq<u64>>;

    closed spec fn view(&self) -> Map<u64, Seq<u64>> {
        self.contents@
    }
}

impl TableMemory {
    /// The level of each table: 4 for a top-level table down to 1 for a table of
    /// 4 KiB entries.
    pub closed spec fn levels(&self) -> Map<u64, int> {
        self.levels@
    }

    /// The frame list and the tables agree with the contents.
    pub closed spec fn store_wf(&self) -> bool {
        &&& self.frames@.len() == self.tables@.len()
        &&& forall|a: int, b: int|
            0 <= a < self.frames@.len() && 0 <= b < self.frames@.len() && a != b ==> #[trigger] self.frames@[a]
                != #[trigger] self.frames@[b]
        &&& forall|k: int|
            0 <= k < self.frames@.len() ==> self.contents@.dom().contains(#[trigger] self.frames@[k])
                && self.contents@[self.frames@[k]] == self.tables@[k].entries@
        &&& forall|f: u64|
            #[trigger] self.contents@.dom().contains(f) ==> exists|k: int|
                0 <= k < self.frames@.len() && #[trigger] self.frames@[k] == f
    }

    /// The tables form a tree under `root`, and every frame they use has been
    /// handed out by `alloc`, which is sane.
    pub open spec fn wf(&self, root: u64, alloc: PhysicalAllocator) -> bool {
        &&& self.store_wf()
        &&& tables_wf(self@, self.levels(), root)
        &&& alloc.sane()
        &&& forall|f: u64| #[trigger] self@.dom().contains(f) ==> alloc.claimed(f)
    }

    pub fn new() -> (r: Self)
        ensures
            r.store_wf(),
            r@ == Map::<u64, Seq<u64>>::empty(),
            r.levels() == Map::<u64, int>::empty(),
    {
        TableMemory {
            frames: Vec::new(),
            tables: Vec::new(),
            contents: Ghost(Map::empty()),
            levels: Ghost(Map::empty()),
        }
    }

    fn find(&self, frame: u64) -> (k: usize)
        requires
            self.store_wf(),
            self@.dom().contains(frame),
        ensures
            k < self.frames@.len(),
            self.frames@[k as int] == frame,
            self@[frame] == self.tables@[k as int].entries@,
    {
        let mut k: usize = 0;
        while k < self.frames.len()
            invariant
                self.store_wf(),
                self@.dom().contains(frame),
                0 <= k <= self.frames@.len(),
                forall|j: int| 0 <= j < k ==> self.frames@[j] != frame,
            decreases self.frames@.len() - k,
        {
            if self.frames[k] == frame {
                return k;
            }
            k = k + 1;
        }
        proof {
            let j = choose|j: int| 0 <= j < self.frames@.len() && #[trigger] self.frames@[j] == frame;
            assert(self.frames@[j] != frame);
        }
        0
    }

    /// Entry `i` of the table in `frame`.
    fn read(&self, frame: u64, i: usize) -> (e: u64)
        requires
            self.store_wf(),
            self@.dom().contains(frame),
            i < 512,
        ensures
            e == self@[frame][i as int],
    {
        let k = self.find(frame);
        self.tables[k].entries[i]
    }

    /// Sets entry `i` of the table in `frame` to `v`.
    fn write(&mut self, frame: u64, i: usize, v: u64)
        requires
            old(self).store_wf(),
            old(self)@.dom().contains(frame),
            i < 512,
        ensures
            final(self).store_wf(),
            final(self)@ == old(self)@.insert(frame, old(self)@[frame].update(i as int, v)),
            final(self)@.dom() == old(self)@.dom(),
            final(self).levels() == old(self).levels(),
    {
        let k = self.find(frame);
        let mut t = self.tables[k];
        t.entries[i] = v;
        self.tables.set(k, t);
        let ghost old_contents = self.contents@;
        self.contents = Ghost(old_contents.insert(frame, old_contents[frame].update(i as int, v)));
        proof {
            assert(self.contents@.dom() =~= old_contents.dom());
            assert forall|j: int| 0 <= j < self.frames@.len() implies self.contents@.dom().contains(
                #[trigger] self.frames@[j],
            ) && self.contents@[self.frames@[j]] == self.tables@[j].entries@ by {
                if j != k {
                    assert(self.frames@[j] != frame);
                }
            }
        }
    }

    /// Places `table` in the new frame `frame` at level `level`.
    fn add(&mut self, frame: u64, table: PageTable, Ghost(level): Ghost<int>)
        requires
            old(self).store_wf(),
            !old(self)@.dom().contains(frame),
        ensures
            final(self).store_wf(),
            final(self)@ == old(self)@.insert(frame, table.entries@),
            final(self).levels() == old(self).levels().insert(frame, level),
    {
        let ghost old_contents = self.contents@;
        let ghost old_frames = self.frames@;
        self.frames.push(frame);
        self.tables.push(table);
        self.contents = Ghost(old_contents.insert(frame, table.entries@));
        self.levels = Ghost(self.levels@.insert(frame, level));
        proof {
            let n = old_frames.len() as int;
            assert forall|a: int, b: int|
                0 <= a < self.frames@.len() && 0 <= b < self.frames@.len() && a != b implies #[trigger] self.frames@[a]
                != #[trigger] self.frames@[b] by {
                if a == n {
                    assert(old_contents.dom().contains(self.frames@[b]));
                } else if b == n {
                    assert(old_contents.dom().contains(self.frames@[a]));
                }
            }
            assert forall|f: u64| #[trigger] self.contents@.dom().contains(f) implies exists|k: int|
                0 <= k < self.frames@.len() && #[trigger] self.frames@[k] == f by {
                if f == frame {
                    assert(self.frames@[n] == f);
                } else {
                    assert(old_contents.dom().contains(f));
                    let k = choose|k: int| 0 <= k < old_frames.len() && #[trigger] old_frames[k] == f;
                    assert(self.frames@[k] == f);
                }
            }
        }
    }

    /// The frames that hold tables, in the order they were taken.
    pub fn frame_list(&self) -> (r: Vec<u64>)
        requires
            self.store_wf(),
        ensures
            forall|f: u64| self@.dom().contains(f) <==> r@.contains(f),
    {
        let r = self.frames.clone();
        proof {
            assert forall|f: u64| self@.dom().contains(f) <==> r@.contains(f) by {
                if self@.dom().contains(f) {
                    let k = choose|k: int| 0 <= k < self.frames@.len() && #[trigger] self.frames@[k] == f;
                    assert(r@[k] == f);
                }
            }
        }
        r
    }

    /// Walks the tables from `root` for `va`: the 4 KiB entry that translates its
    /// page, the page's share of a 2 MiB entry, or 0 where the walk meets an empty
    /// entry.
    pub fn translate(&self, root: u64, va: u64) -> (r: u64)
        requires
            self.store_wf(),
            tables_wf(self@, self.levels(), root),
        ensures
            r == page_entry(self@, root, va),
    {
        proof {
            lemma_index_bits(va);
            lemma_walk(self@, self.levels(), root, va);
        }
        let e4 = self.read(root, ((va >> 39) & 0x1FF) as usize);
        if e4 == 0 {
            return 0;
        }
        let e3 = self.read(e4 & PAGE_TABLE_ADDR_MASK, ((va >> 30) & 0x1FF) as usize);
        if e3 == 0 {
            return 0;
        }
        let e2 = self.read(e3 & PAGE_TABLE_ADDR_MASK, ((va >> 21) & 0x1FF) as usize);
        let i1 = (va >> 12) & 0x1FF;
        if e2 == 0 {
            0
        } else if e2 & HUGE_PAGE != 0 {
            proof {
                lemma_mask_bits(e2);
            }
            let mut flags = (e2 & FLAGS_MASK) & !HUGE_PAGE;
            if e2 & PDE_PAT != 0 {
                flags = flags | PTE_PAT;
            }
            ((e2 & HUGE_PAGE_ADDR_MASK) + i1 * PAGE_SIZE) | flags
        } else {
            self.read(e2 & PAGE_TABLE_ADDR_MASK, i1 as usize)
        }
    }

    /// Entry `i` of the table in `frame`, if there is such a table and entry.
    pub fn entry(&self, frame: u64, i: usize) -> (r: Option<u64>)
        requires
            self.store_wf(),
        ensures
            r == (if self@.dom().contains(frame) && i < 512 {
                Some(self@[frame][i as int])
            } else {
                None::<u64>
            }),
    {
        let mut k: usize = 0;
        while k < self.frames.len()
            invariant
                self.store_wf(),
                0 <= k <= self.frames@.len(),
                forall|j: int| 0 <= j < k ==> self.frames@[j] != frame,
            decreases self.frames@.len() - k,
        {
            if self.frames[k] == frame {
                if i < 512 {
                    return Some(self.tables[k].entries[i]);
                } else {
                    return None;
                }
            }
            k = k + 1;
        }
        proof {
            if self@.dom().contains(frame) {
                let j = choose|j: int| 0 <= j < self.frames@.len() && #[trigger] self.frames@[j] == frame;
                assert(self.frames@[j] != frame);
            }
        }
        None
    }
}

} // verus!

verus! {

/// The 512 4 KiB entries that together map what the 2 MiB entry `pde` maps.
fn split_table(pde: u64) -> (t: PageTable)
    ensures
        forall|i: int| 0 <= i < 512 ==> #[trigger] t.entries@[i] == split_entry(pde, i),
{
    let huge_phys_base = pde & HUGE_PAGE_ADDR_MASK;
    let mut pte_flags = (pde & FLAGS_MASK) & !HUGE_PAGE;
    if pde & PDE_PAT != 0 {
        pte_flags = pte_flags | PTE_PAT;
    }
    proof {
        lemma_mask_bits(pde);
    }
    let mut t = PageTable { entries: [0u64; 512] };
    let mut i: usize = 0;
    while i < 512
        invariant
            0 <= i <= 512,
            huge_phys_base == pde & HUGE_PAGE_ADDR_MASK,
            huge_phys_base <= HUGE_PAGE_ADDR_MASK,
            pte_flags == split_flags(pde),
            t.entries@.len() == 512,
            forall|k: int| 0 <= k < i ==> #[trigger] t.entries@[k] == split_entry(pde, k),
        decreases 512 - i,
    {
        t.entries[i] = huge_phys_base + (i as u64) * PAGE_SIZE | pte_flags;
        i = i + 1;
    }
    t
}

/// Takes a frame from `alloc` and places `table` in it at `level`; where the
/// allocator has no frame left, nothing changes.
fn place_table(
    mem: &mut TableMemory,
    alloc: &mut PhysicalAllocator,
    table: PageTable,
    Ghost(root): Ghost<u64>,
    Ghost(level): Ghost<int>,
    Ghost(spare): Ghost<nat>,
) -> (r: Result<u64, OutOfFrames>)
    requires
        old(mem).wf(root, *old(alloc)),
        1 <= level <= 3,
        level == 1 || forall|i: int| 0 <= i < 512 ==> #[trigger] table.entries@[i] == 0,
    ensures
        final(mem).wf(root, *final(alloc)),
        claims_grow(*old(alloc), *final(alloc)),
        forall|va: u64| #[trigger] page_entry(final(mem)@, root, va) == page_entry(old(mem)@, root, va),
        old(alloc).frames_available(spare + 1) ==> r is Ok && final(alloc).frames_available(spare),
        match r {
            Ok(f) => {
                &&& !old(mem)@.dom().contains(f)
                &&& final(mem)@ == old(mem)@.insert(f, table.entries@)
                &&& final(mem).levels() == old(mem).levels().insert(f, level)
                &&& unreferenced(final(mem)@, final(mem).levels(), f)
                &&& f % PAGE_SIZE == 0
                &&& LOW_MEMORY_LIMIT <= f
                &&& f + PAGE_SIZE <= MAX_BOOT_PHYS
            },
            Err(_) => {
                &&& final(mem)@ == old(mem)@
                &&& final(mem).levels() == old(mem).levels()
                &&& !(final(alloc).can_alloc(PAGE_SIZE as int) && final(alloc).no_overflow(
                    PAGE_SIZE as int,
                ))
            },
        },
{
    let ghost a0 = *alloc;
    match alloc.try_alloc_frame() {
        None => Err(OutOfFrames),
        Some(f) => {
            proof {
                a0.lemma_fresh_frame(f, *alloc);
                assert(table.entries@.len() == 512);
                lemma_add_table(mem@, mem.levels(), root, f, table.entries@, level);
            }
            mem.add(f, table, Ghost(level));
            Ok(f)
        },
    }
}

/// Takes a frame from `alloc` for an empty table at `level`; where the allocator has
/// no frame left, nothing changes.
fn mk_table(
    mem: &mut TableMemory,
    alloc: &mut PhysicalAllocator,
    Ghost(root): Ghost<u64>,
    Ghost(level): Ghost<int>,
    Ghost(spare): Ghost<nat>,
) -> (r: Result<u64, OutOfFrames>)
    requires
        old(mem).wf(root, *old(alloc)),
        1 <= level <= 3,
    ensures
        final(mem).wf(root, *final(alloc)),
        claims_grow(*old(alloc), *final(alloc)),
        forall|va: u64| #[trigger] page_entry(final(mem)@, root, va) == page_entry(old(mem)@, root, va),
        old(alloc).frames_available(spare + 1) ==> r is Ok && final(alloc).frames_available(spare),
        match r {
            Ok(f) => {
                &&& !old(mem)@.dom().contains(f)
                &&& final(mem)@ == old(mem)@.insert(f, final(mem)@[f])
                &&& forall|k: int| 0 <= k < 512 ==> #[trigger] final(mem)@[f][k] == 0
                &&& final(mem).levels() == old(mem).levels().insert(f, level)
                &&& unreferenced(final(mem)@, final(mem).levels(), f)
                &&& f % PAGE_SIZE == 0
                &&& LOW_MEMORY_LIMIT <= f
                &&& f + PAGE_SIZE <= MAX_BOOT_PHYS
            },
            Err(_) => {
                &&& final(mem)@ == old(mem)@
                &&& final(mem).levels() == old(mem).levels()
                &&& !(final(alloc).can_alloc(PAGE_SIZE as int) && final(alloc).no_overflow(
                    PAGE_SIZE as int,
                ))
            },
        },
{
    let empty = PageTable { entries: [0u64; 512] };
    proof {
        broadcast use vstd::array::axiom_spec_array_fill_for_copy_type;
        assert(forall|k: int| 0 <= k < 512 ==> #[trigger] empty.entries@[k] == 0);
    }
    place_table(mem, alloc, empty, Ghost(root), Ghost(level), Ghost(spare))
}

/// Makes entry `i` of table `t` name a table one level down, taking an empty one
/// from `alloc` where the entry is empty.
fn ensure_table(
    mem: &mut TableMemory,
    alloc: &mut PhysicalAllocator,
    root: u64,
    t: u64,
    i: usize,
    Ghost(spare): Ghost<nat>,
) -> (r: Result<(), OutOfFrames>)
    requires
        old(mem).wf(root, *old(alloc)),
        old(mem)@.dom().contains(t),
        old(mem).levels()[t] >= 2,
        i < 512,
    ensures
        final(mem).wf(root, *final(alloc)),
        claims_grow(*old(alloc), *final(alloc)),
        forall|va: u64| #[trigger] page_entry(final(mem)@, root, va) == page_entry(old(mem)@, root, va),
        forall|x: u64| #[trigger] old(mem)@.dom().contains(x) ==> final(mem)@.dom().contains(x)
            && final(mem).levels()[x] == old(mem).levels()[x],
        forall|x: u64| old(mem)@.dom().contains(x) && x != t ==> #[trigger] final(mem)@[x] == old(
            mem,
        )@[x],
        final(mem)@[t] == old(mem)@[t].update(i as int, final(mem)@[t][i as int]),
        old(mem)@[t][i as int] != 0 ==> final(mem)@[t][i as int] == old(mem)@[t][i as int],
        r is Ok ==> final(mem)@[t][i as int] != 0,
        r is Ok && old(mem)@[t][i as int] == 0 ==> !is_huge(final(mem)@[t][i as int]),
        old(mem)@[t][i as int] != 0 ==> r is Ok && *final(alloc) == *old(alloc),
        old(alloc).frames_available(spare + 1) ==> r is Ok && final(alloc).frames_available(spare),
        r is Err ==> !(final(alloc).can_alloc(PAGE_SIZE as int) && final(alloc).no_overflow(
            PAGE_SIZE as int,
        )),
{
    let e = mem.read(t, i);
    if e != 0 {
        proof {
            if alloc.frames_available(spare + 1) {
                alloc.lemma_frames_available_fewer(spare + 1, spare);
            }
        }
        return Ok(());
    }
    let ghost lt = mem.levels()[t];
    let f = match mk_table(mem, alloc, Ghost(root), Ghost(lt - 1), Ghost(spare)) {
        Ok(f) => f,
        Err(err) => {
            return Err(err);
        },
    };
    let v = f | PRESENT | WRITE;
    proof {
        lemma_frame_low_bits(f);
        lemma_table_entry_bits(f);
        lemma_link(mem@, mem.levels(), root, t, i as int, f, v);
    }
    mem.write(t, i, v);
    Ok(())
}

/// Maps the 4 KiB page at `virt` to the entry `phys | flags` under the top-level
/// table `root`, taking the tables it needs from `alloc`, and splitting a 2 MiB
/// mapping that covers the page into 4 KiB entries first.
pub fn map_page(
    mem: &mut TableMemory,
    alloc: &mut PhysicalAllocator,
    root: u64,
    virt: u64,
    phys: u64,
    flags: u64,
) -> (r: Result<(), OutOfFrames>)
    requires
        old(mem).wf(root, *old(alloc)),
    ensures
        final(mem).wf(root, *final(alloc)),
        claims_grow(*old(alloc), *final(alloc)),
        old(alloc).frames_available(3) ==> r is Ok,
        r is Ok ==> page_entry(final(mem)@, root, virt) == phys | flags,
        r is Ok ==> forall|va: u64|
            page_number(va) != page_number(virt) ==> #[trigger] page_entry(final(mem)@, root, va)
                == page_entry(old(mem)@, root, va),
        r is Err ==> forall|va: u64| #[trigger] page_entry(final(mem)@, root, va) == page_entry(
            old(mem)@,
            root,
            va,
        ),
        r is Err ==> !(final(alloc).can_alloc(PAGE_SIZE as int) && final(alloc).no_overflow(
            PAGE_SIZE as int,
        )),
{
    proof {
        lemma_index_bits(virt);
        lemma_indices(virt);
    }
    let idx_pml4 = ((virt >> 39) & 0x1FF) as usize;
    let idx_pdpt = ((virt >> 30) & 0x1FF) as usize;
    let idx_pd = ((virt >> 21) & 0x1FF) as usize;
    let idx_pt = ((virt >> 12) & 0x1FF) as usize;
    let ghost m0 = mem@;

    match ensure_table(mem, alloc, root, root, idx_pml4, Ghost(2nat)) {
        Ok(()) => {},
        Err(e) => {
            return Err(e);
        },
    }
    let pdpt = mem.read(root, idx_pml4) & PAGE_TABLE_ADDR_MASK;
    proof {
        lemma_walk(mem@, mem.levels(), root, virt);
    }
    match ensure_table(mem, alloc, root, pdpt, idx_pdpt, Ghost(1nat)) {
        Ok(()) => {},
        Err(e) => {
            return Err(e);
        },
    }
    let pd = mem.read(pdpt, idx_pdpt) & PAGE_TABLE_ADDR_MASK;
    proof {
        lemma_walk(mem@, mem.levels(), root, virt);
    }
    match ensure_table(mem, alloc, root, pd, idx_pd, Ghost(0nat)) {
        Ok(()) => {},
        Err(e) => {
            return Err(e);
        },
    }
    proof {
        lemma_walk(mem@, mem.levels(), root, virt);
    }
    let pde_entry = mem.read(pd, idx_pd);
    if pde_entry & HUGE_PAGE != 0 {
        let table = split_table(pde_entry);
        let f = match place_table(mem, alloc, table, Ghost(root), Ghost(1int), Ghost(0nat)) {
            Ok(f) => f,
            Err(e) => {
                return Err(e);
            },
        };
        let new_pde_flags = (pde_entry & FLAGS_MASK) & !HUGE_PAGE;
        let v = f | new_pde_flags;
        proof {
            lemma_frame_low_bits(f);
            lemma_mask_bits(pde_entry);
            lemma_link_bits(f, new_pde_flags);
            lemma_split_link(mem@, mem.levels(), root, virt, f, v);
        }
        mem.write(pd, idx_pd, v);
        proof {
            lemma_walk(mem@, mem.levels(), root, virt);
        }
    }
    let pt = mem.read(pd, idx_pd) & PAGE_TABLE_ADDR_MASK;
    proof {
        lemma_leaf_write(mem@, mem.levels(), root, virt, phys | flags);
    }
    mem.write(pt, idx_pt, phys | flags);
    Ok(())
}

/// Maps the 2 MiB page at `virt` to the 2 MiB entry `phys | flags` under `root`,
/// taking the tables it needs from `alloc`.
pub fn map_page_2mib(
    mem: &mut TableMemory,
    alloc: &mut PhysicalAllocator,
    root: u64,
    virt: u64,
    phys: u64,
    flags: u64,
) -> (r: Result<(), OutOfFrames>)
    requires
        old(mem).wf(root, *old(alloc)),
        virt % PAGE_SIZE_2M == 0,
        phys % PAGE_SIZE_2M == 0,
    ensures
        final(mem).wf(root, *final(alloc)),
        claims_grow(*old(alloc), *final(alloc)),
        old(alloc).frames_available(2) ==> r is Ok,
        r is Ok ==> forall|va: u64| #[trigger] page_entry(final(mem)@, root, va) == (if huge_number(va)
            == huge_number(virt) {
            split_entry(phys | flags | HUGE_PAGE, l1_index(va))
        } else {
            page_entry(old(mem)@, root, va)
        }),
        r is Err ==> forall|va: u64| #[trigger] page_entry(final(mem)@, root, va) == page_entry(
            old(mem)@,
            root,
            va,
        ),
        r is Err ==> !(final(alloc).can_alloc(PAGE_SIZE as int) && final(alloc).no_overflow(
            PAGE_SIZE as int,
        )),
{
    proof {
        lemma_index_bits(virt);
        lemma_indices(virt);
    }
    let idx_pml4 = ((virt >> 39) & 0x1FF) as usize;
    let idx_pdpt = ((virt >> 30) & 0x1FF) as usize;
    let idx_pd = ((virt >> 21) & 0x1FF) as usize;

    match ensure_table(mem, alloc, root, root, idx_pml4, Ghost(1nat)) {
        Ok(()) => {},
        Err(e) => {
            return Err(e);
        },
    }
    let pdpt = mem.read(root, idx_pml4) & PAGE_TABLE_ADDR_MASK;
    proof {
        lemma_walk(mem@, mem.levels(), root, virt);
    }
    match ensure_table(mem, alloc, root, pdpt, idx_pdpt, Ghost(0nat)) {
        Ok(()) => {},
        Err(e) => {
            return Err(e);
        },
    }
    let pd = mem.read(pdpt, idx_pdpt) & PAGE_TABLE_ADDR_MASK;
    let v = phys | flags | HUGE_PAGE;
    proof {
        lemma_walk(mem@, mem.levels(), root, virt);
        lemma_mask_bits(phys | flags);
        lemma_huge_write(mem@, mem.levels(), root, virt, v);
    }
    mem.write(pd, idx_pd, v);
    Ok(())
}

/// The 2 MiB entry that identity-maps the 2 MiB page of `va`, seen from one of its
/// 4 KiB pages.
pub open spec fn identity_entry(va: u64) -> u64 {
    split_entry(((huge_number(va) * 0x200000) as u64) | (PRESENT | WRITE) | HUGE_PAGE, l1_index(va))
}

proof fn lemma_round_up_2mib(x: int)
    requires
        x >= 0,
    ensures
        x <= round_up(x, PAGE_SIZE_2M as int) < x + PAGE_SIZE_2M,
        round_up(x, PAGE_SIZE_2M as int) % (PAGE_SIZE_2M as int) == 0,
{
    assert(x <= ((x + 0x1FFFFF) / 0x200000) * 0x200000 < x + 0x200000) by (nonlinear_arith)
        requires
            x >= 0,
    ;
    assert((((x + 0x1FFFFF) / 0x200000) * 0x200000) % 0x200000 == 0) by (nonlinear_arith);
}

/// Identity-maps physical memory from 0 up to `limit` rounded up to 2 MiB, in 2 MiB
/// pages.
pub fn identity_map_upto_2mib(
    mem: &mut TableMemory,
    alloc: &mut PhysicalAllocator,
    root: u64,
    limit: u64,
) -> (r: Result<(), OutOfFrames>)
    requires
        old(mem).wf(root, *old(alloc)),
        limit <= 0xFFFF_FFE0_0000,
    ensures
        final(mem).wf(root, *final(alloc)),
        claims_grow(*old(alloc), *final(alloc)),
        r is Ok ==> forall|va: u64| #[trigger] page_entry(final(mem)@, root, va) == (if huge_number(va)
            < round_up(limit as int, PAGE_SIZE_2M as int) / (PAGE_SIZE_2M as int) {
            identity_entry(va)
        } else {
            page_entry(old(mem)@, root, va)
        }),
        r is Err ==> !(final(alloc).can_alloc(PAGE_SIZE as int) && final(alloc).no_overflow(
            PAGE_SIZE as int,
        )),
{
    let end = align_up_2mb(limit);
    proof {
        lemma_round_up_2mib(limit as int);
    }
    let ghost m0 = mem@;
    let mut pa: u64 = 0;
    while pa < end
        invariant
            mem.wf(root, *alloc),
            claims_grow(*old(alloc), *alloc),
            end == round_up(limit as int, PAGE_SIZE_2M as int),
            end % PAGE_SIZE_2M == 0,
            end <= 0x1_0000_0000_0000,
            pa % PAGE_SIZE_2M == 0,
            pa <= end,
            forall|va: u64| #[trigger] page_entry(mem@, root, va) == (if huge_number(va) < pa as int
                / (PAGE_SIZE_2M as int) {
                identity_entry(va)
            } else {
                page_entry(m0, root, va)
            }),
        decreases end - pa,
    {
        let ghost m1 = mem@;
        match map_page_2mib(mem, alloc, root, pa, pa, PRESENT | WRITE) {
            Ok(()) => {},
            Err(e) => {
                return Err(e);
            },
        }
        proof {
            lemma_huge_number_bits(pa);
            assert(pa + PAGE_SIZE_2M <= end) by (nonlinear_arith)
                requires
                    pa % 0x200000 == 0,
                    end % 0x200000 == 0,
                    pa < end,
            ;
            assert forall|va: u64| #[trigger] page_entry(mem@, root, va) == (if huge_number(va) < (pa
                + PAGE_SIZE_2M) as int / (PAGE_SIZE_2M as int) {
                identity_entry(va)
            } else {
                page_entry(m0, root, va)
            }) by {
                if huge_number(va) == huge_number(pa) {
                    assert(pa == (huge_number(va) * 0x200000) as u64);
                }
            }
        }
        pa = pa + PAGE_SIZE_2M;
    }
    Ok(())
}

/// How many 4 KiB pages past the page of `base` the page of `va` lies, counting
/// round the 48-bit space.
pub open spec fn page_offset(va: u64, base: u64) -> int {
    (page_number(va) - page_number(base)) % 0x10_0000_0000
}

/// The 4 KiB entry that a range mapped from `phys_start` at `virt_base` with `flags`
/// gives the page of `va`.
pub open spec fn range_entry(va: u64, virt_base: u64, phys_start: u64, flags: u64) -> u64 {
    ((phys_start + page_offset(va, virt_base) * 4096) as u64) | flags
}

proof fn lemma_offset_step(vb: u64, va: u64, base: u64, k: int)
    requires
        0 <= k < 0x10_0000_0000,
        page_number(va) == (page_number(base) + k) % 0x10_0000_0000,
    ensures
        (page_number(vb) == page_number(va)) <==> (page_offset(vb, base) == k),
{
    lemma_indices(vb);
    lemma_indices(base);
    lemma_index_bits(vb);
    lemma_index_bits(base);
    let p = page_number(vb);
    let b = page_number(base);
    assert(0 <= p < 0x10_0000_0000);
    assert(0 <= b < 0x10_0000_0000);
    if b + k < 0x10_0000_0000 {
        assert(page_number(va) == b + k);
    } else {
        assert(page_number(va) == b + k - 0x10_0000_0000);
    }
    if p >= b {
        assert(page_offset(vb, base) == p - b);
    } else {
        assert(page_offset(vb, base) == p - b + 0x10_0000_0000);
    }
}

/// A range of `size` bytes at `phys_addr`, widened to whole pages, can be mapped at
/// `virt_base`: its arithmetic stays in 64 bits and it spans at most the 48-bit space.
pub open spec fn range_ok(phys_addr: u64, size: u64, virt_base: u64) -> bool {
    &&& phys_addr + size + PAGE_SIZE <= u64::MAX
    &&& round_up(phys_addr + size, PAGE_SIZE as int) - round_down(phys_addr as int, PAGE_SIZE as int)
        <= 0x1_0000_0000_0000
    &&& virt_base + round_up(phys_addr + size, PAGE_SIZE as int) - round_down(
        phys_addr as int,
        PAGE_SIZE as int,
    ) <= u64::MAX
}

/// The page of `va` is one of the pages that the range of `size` bytes at
/// `phys_addr`, widened to whole pages, occupies when mapped at `virt_base`.
pub open spec fn range_covers(va: u64, virt_base: u64, phys_addr: u64, size: u64) -> bool {
    page_offset(va, virt_base) < (round_up(phys_addr + size, PAGE_SIZE as int) - round_down(
        phys_addr as int,
        PAGE_SIZE as int,
    )) / (PAGE_SIZE as int)
}

/// The 4 KiB entry that mapping the range at `phys_addr` at `virt_base` with
/// `flags` gives the page of `va`.
pub open spec fn phys_range_entry(va: u64, virt_base: u64, phys_addr: u64, flags: u64) -> u64 {
    range_entry(va, virt_base, round_down(phys_addr as int, PAGE_SIZE as int) as u64, flags)
}

/// Maps the physical range of `size` bytes at `phys_addr`, widened to whole pages,
/// at `virt_base` with `flags`, and gives the virtual address of `phys_addr`.
pub fn map_physical_range(
    mem: &mut TableMemory,
    alloc: &mut PhysicalAllocator,
    root: u64,
    phys_addr: u64,
    size: u64,
    virt_base: u64,
    flags: u64,
) -> (r: Result<u64, OutOfFrames>)
    requires
        old(mem).wf(root, *old(alloc)),
        range_ok(phys_addr, size, virt_base),
    ensures
        final(mem).wf(root, *final(alloc)),
        claims_grow(*old(alloc), *final(alloc)),
        match r {
            Ok(v) => {
                &&& v == virt_base + (phys_addr - round_down(phys_addr as int, PAGE_SIZE as int))
                &&& forall|va: u64| #[trigger] page_entry(final(mem)@, root, va) == (if range_covers(
                    va,
                    virt_base,
                    phys_addr,
                    size,
                ) {
                    phys_range_entry(va, virt_base, phys_addr, flags)
                } else {
                    page_entry(old(mem)@, root, va)
                })
            },
            Err(_) => !(final(alloc).can_alloc(PAGE_SIZE as int) && final(alloc).no_overflow(
                PAGE_SIZE as int,
            )),
        },
{
    let phys_start = align_down(phys_addr);
    let phys_end = align_up(phys_addr + size);
    let offset = phys_addr - phys_start;
    proof {
        lemma_round_up_page(phys_addr + size);
        assert(phys_addr - 4096 < (phys_addr as int / 4096) * 4096 <= phys_addr) by (nonlinear_arith);
        assert(phys_start % 4096 == 0 && phys_end % 4096 == 0) by (nonlinear_arith)
            requires
                phys_start == (phys_addr as int / 4096) * 4096,
                phys_end % 4096 == 0,
        ;
    }
    let ghost n: int = (phys_end - phys_start) as int / 4096;
    let ghost m0 = mem@;
    proof {
        lemma_indices(virt_base);
    }
    let ghost mut k: int = 0;
    let mut pa = phys_start;
    let mut va = virt_base;
    while pa < phys_end
        invariant
            mem.wf(root, *alloc),
            claims_grow(*old(alloc), *alloc),
            phys_start % 4096 == 0,
            phys_end % 4096 == 0,
            phys_start <= phys_end,
            n == (phys_end - phys_start) as int / 4096,
            n <= 0x10_0000_0000,
            virt_base + (phys_end - phys_start) <= u64::MAX,
            0 <= k <= n,
            pa == phys_start + k * 4096,
            va == virt_base + k * 4096,
            k < 0x10_0000_0000 ==> page_number(va) == (page_number(virt_base) + k) % 0x10_0000_0000,
            forall|vb: u64| #[trigger] page_entry(mem@, root, vb) == (if page_offset(vb, virt_base)
                < k {
                range_entry(vb, virt_base, phys_start, flags)
            } else {
                page_entry(m0, root, vb)
            }),
        decreases phys_end - pa,
    {
        assert(k < n) by (nonlinear_arith)
            requires
                pa == phys_start + k * 4096,
                pa < phys_end,
                phys_end - phys_start == n * 4096 + (phys_end - phys_start) % 4096,
                (phys_end - phys_start) % 4096 == 0,
        ;
        let ghost m1 = mem@;
        match map_page(mem, alloc, root, va, pa, flags) {
            Ok(()) => {},
            Err(e) => {
                return Err(e);
            },
        }
        proof {
            assert forall|vb: u64| #[trigger] page_entry(mem@, root, vb) == (if page_offset(
                vb,
                virt_base,
            ) < k + 1 {
                range_entry(vb, virt_base, phys_start, flags)
            } else {
                page_entry(m0, root, vb)
            }) by {
                lemma_offset_step(vb, va, virt_base, k);
                if page_number(vb) == page_number(va) {
                    lemma_entry_by_page(mem@, root, vb, va);
                    assert(page_entry(mem@, root, vb) == pa | flags);
                    assert(pa == ((phys_start + page_offset(vb, virt_base) * 4096) as u64));
                } else {
                    assert(page_entry(mem@, root, vb) == page_entry(m1, root, vb));
                    assert(page_offset(vb, virt_base) != k);
                }
            }
            if k + 1 < 0x10_0000_0000 {
                lemma_next_page_bits(va);
                lemma_indices(virt_base);
                lemma_index_bits(virt_base);
            }
        }
        pa = pa + PAGE_SIZE;
        va = va + PAGE_SIZE;
        proof {
            k = k + 1;
        }
    }
    proof {
        assert(k == n) by (nonlinear_arith)
            requires
                pa == phys_start + k * 4096,
                pa >= phys_end,
                k <= n,
                phys_end - phys_start == n * 4096 + (phys_end - phys_start) % 4096,
                (phys_end - phys_start) % 4096 == 0,
        ;
    }
    Ok(virt_base + offset)
}

/// A new set of tables: an empty top-level table in a frame from `alloc`.
pub fn new_tables(alloc: &mut PhysicalAllocator) -> (r: Result<(TableMemory, u64), OutOfFrames>)
    requires
        old(alloc).sane(),
    ensures
        old(alloc).frames_available(1) ==> r is Ok,
        match r {
            Ok((mem, root)) => {
                &&& mem.wf(root, *final(alloc))
                &&& !old(alloc).claimed(root)
                &&& forall|f: u64| old(alloc).claimed(f) ==> #[trigger] final(alloc).claimed(f)
                &&& forall|va: u64| #[trigger] page_entry(mem@, root, va) == 0
            },
            Err(_) => {
                &&& *final(alloc) == *old(alloc)
                &&& !(final(alloc).can_alloc(PAGE_SIZE as int) && final(alloc).no_overflow(
                    PAGE_SIZE as int,
                ))
            },
        },
{
    let ghost a0 = *alloc;
    let root = match alloc.try_alloc_frame() {
        Some(f) => f,
        None => {
            return Err(OutOfFrames);
        },
    };
    proof {
        a0.lemma_fresh_frame(root, *alloc);
    }
    let mut mem = TableMemory::new();
    let empty = PageTable { entries: [0u64; 512] };
    proof {
        broadcast use vstd::array::axiom_spec_array_fill_for_copy_type;
        assert(forall|k: int| 0 <= k < 512 ==> #[trigger] empty.entries@[k] == 0);
    }
    mem.add(root, empty, Ghost(4int));
    proof {
        let m = mem@;
        let lv = mem.levels();
        assert forall|t: u64, i: int| m.dom().contains(t) && 0 <= i < 512 implies !#[trigger] points_down(
            m,
            lv,
            t,
            i,
        ) by {
            assert(t == root);
        }
        assert forall|va: u64| #[trigger] page_entry(m, root, va) == 0 by {
            lemma_indices(va);
        }
    }
    Ok((mem, root))
}

/// Region `r` is usable, and the 2 MiB page of `va` lies in its range, widened to
/// 2 MiB pages, within the direct map at `PHYS_OFFSET`.
pub open spec fn direct_covers_region(r: MemoryRegion, va: u64) -> bool {
    &&& spec_early_usable(r.kind)
    &&& round_down(r.start as int, PAGE_SIZE_2M as int) / (PAGE_SIZE_2M as int) + 0x400_0000
        <= huge_number(va)
    &&& huge_number(va) < round_up(r.end as int, PAGE_SIZE_2M as int) / (PAGE_SIZE_2M as int)
        + 0x400_0000
}

/// One of the first `n` regions puts the 2 MiB page of `va` in the direct map.
pub open spec fn direct_covers(rs: Seq<MemoryRegion>, n: int, va: u64) -> bool
    decreases n,
{
    if n <= 0 {
        false
    } else {
        direct_covers_region(rs[n - 1], va) || direct_covers(rs, n - 1, va)
    }
}

/// The 2 MiB entry of the direct map for the 2 MiB page of `va`, seen from one of
/// its 4 KiB pages.
pub open spec fn direct_entry(va: u64) -> u64 {
    split_entry(
        ((((huge_number(va) - 0x400_0000) * 0x200000) as u64) | (PRESENT | WRITE)) | HUGE_PAGE,
        l1_index(va),
    )
}

/// Maps each usable region, widened to 2 MiB pages, at `PHYS_OFFSET` plus its
/// physical address, in 2 MiB pages.
pub fn map_direct_regions(
    mem: &mut TableMemory,
    alloc: &mut PhysicalAllocator,
    root: u64,
    regions: &[MemoryRegion],
) -> (r: Result<(), OutOfFrames>)
    requires
        old(mem).wf(root, *old(alloc)),
        forall|i: int|
            0 <= i < regions@.len() && spec_early_usable(#[trigger] regions@[i].kind)
                ==> regions@[i].end <= 0x7FFF_FFE0_0000,
    ensures
        final(mem).wf(root, *final(alloc)),
        claims_grow(*old(alloc), *final(alloc)),
        r is Ok ==> forall|va: u64| #[trigger] page_entry(final(mem)@, root, va) == (if direct_covers(
            regions@,
            regions@.len() as int,
            va,
        ) {
            direct_entry(va)
        } else {
            page_entry(old(mem)@, root, va)
        }),
        r is Err ==> !(final(alloc).can_alloc(PAGE_SIZE as int) && final(alloc).no_overflow(
            PAGE_SIZE as int,
        )),
{
    let ghost m0 = mem@;
    let mut i: usize = 0;
    while i < regions.len()
        invariant
            mem.wf(root, *alloc),
            claims_grow(*old(alloc), *alloc),
            0 <= i <= regions@.len(),
            forall|k: int|
                0 <= k < regions@.len() && spec_early_usable(#[trigger] regions@[k].kind)
                    ==> regions@[k].end <= 0x7FFF_FFE0_0000,
            forall|va: u64| #[trigger] page_entry(mem@, root, va) == (if direct_covers(
                regions@,
                i as int,
                va,
            ) {
                direct_entry(va)
            } else {
                page_entry(m0, root, va)
            }),
        decreases regions@.len() - i,
    {
        let r = regions[i];
        if early_usable(r.kind) {
            let start = align_down_2mb(r.start);
            let end = align_up_2mb(r.end);
            proof {
                lemma_round_up_2mib(r.end as int);
                assert(start % 0x200000 == 0 && start <= r.start) by (nonlinear_arith)
                    requires
                        start == (r.start as int / 0x200000) * 0x200000,
                ;
            }
            let mut pa = start;
            while pa < end
                invariant
                    mem.wf(root, *alloc),
                    claims_grow(*old(alloc), *alloc),
                    0 <= i < regions@.len(),
                    r == regions@[i as int],
                    spec_early_usable(r.kind),
                    start == round_down(r.start as int, PAGE_SIZE_2M as int),
                    end == round_up(r.end as int, PAGE_SIZE_2M as int),
                    start % 0x200000 == 0,
                    end % 0x200000 == 0,
                    end <= 0x8000_0000_0000,
                    pa % 0x200000 == 0,
                    start <= pa,
                    pa <= end || pa == start,
                    forall|k: int|
                        0 <= k < regions@.len() && spec_early_usable(#[trigger] regions@[k].kind)
                            ==> regions@[k].end <= 0x7FFF_FFE0_0000,
                    forall|va: u64| #[trigger] page_entry(mem@, root, va) == (if direct_covers(
                        regions@,
                        i as int,
                        va,
                    ) || (start as int / 0x200000 + 0x400_0000 <= huge_number(va) < pa as int
                        / 0x200000 + 0x400_0000) {
                        direct_entry(va)
                    } else {
                        page_entry(m0, root, va)
                    }),
                decreases end - pa,
            {
                assert(pa + 0x200000 <= end) by (nonlinear_arith)
                    requires
                        pa % 0x200000 == 0,
                        end % 0x200000 == 0,
                        pa < end,
                ;
                let virt = PHYS_OFFSET + pa;
                match map_page_2mib(mem, alloc, root, virt, pa, PRESENT | WRITE) {
                    Ok(()) => {},
                    Err(e) => {
                        return Err(e);
                    },
                }
                proof {
                    lemma_direct_map_bits(pa);
                    assert forall|va: u64| #[trigger] page_entry(mem@, root, va) == (if direct_covers(
                        regions@,
                        i as int,
                        va,
                    ) || (start as int / 0x200000 + 0x400_0000 <= huge_number(va) < (pa
                        + 0x200000) as int / 0x200000 + 0x400_0000) {
                        direct_entry(va)
                    } else {
                        page_entry(m0, root, va)
                    }) by {
                        if huge_number(va) == huge_number(virt) {
                            assert(pa == (((huge_number(va) - 0x400_0000) * 0x200000) as u64));
                        }
                    }
                }
                pa = pa + PAGE_SIZE_2M;
            }
            proof {
                assert forall|va: u64| #[trigger] page_entry(mem@, root, va) == (if direct_covers(
                    regions@,
                    i + 1,
                    va,
                ) {
                    direct_entry(va)
                } else {
                    page_entry(m0, root, va)
                }) by {
                    assert(direct_covers(regions@, i + 1, va) == (direct_covers_region(
                        regions@[i as int],
                        va,
                    ) || direct_covers(regions@, i as int, va)));
                    if start >= end {
                        assert(!direct_covers_region(regions@[i as int], va));
                    }
                }
            }
        } else {
            proof {
                assert forall|va: u64| #[trigger] page_entry(mem@, root, va) == (if direct_covers(
                    regions@,
                    i + 1,
                    va,
                ) {
                    direct_entry(va)
                } else {
                    page_entry(m0, root, va)
                }) by {
                    assert(direct_covers(regions@, i + 1, va) == (direct_covers_region(
                        regions@[i as int],
                        va,
                    ) || direct_covers(regions@, i as int, va)));
                }
            }
        }
        i = i + 1;
    }
    Ok(())
}

/// Maps `count` consecutive 4 KiB pages from `va_base` to consecutive frames from
/// `pa_base` with `flags`.
fn map_pages(
    mem: &mut TableMemory,
    alloc: &mut PhysicalAllocator,
    root: u64,
    va_base: u64,
    pa_base: u64,
    count: u64,
    flags: u64,
) -> (r: Result<(), OutOfFrames>)
    requires
        old(mem).wf(root, *old(alloc)),
        count <= 0x10_0000_0000,
        va_base + count * 4096 <= u64::MAX,
        pa_base + count * 4096 <= u64::MAX,
    ensures
        final(mem).wf(root, *final(alloc)),
        claims_grow(*old(alloc), *final(alloc)),
        r is Ok ==> forall|va: u64| #[trigger] page_entry(final(mem)@, root, va) == (if page_offset(
            va,
            va_base,
        ) < count {
            range_entry(va, va_base, pa_base, flags)
        } else {
            page_entry(old(mem)@, root, va)
        }),
        r is Err ==> !(final(alloc).can_alloc(PAGE_SIZE as int) && final(alloc).no_overflow(
            PAGE_SIZE as int,
        )),
{
    let ghost m0 = mem@;
    proof {
        lemma_indices(va_base);
    }
    let mut i: u64 = 0;
    while i < count
        invariant
            mem.wf(root, *alloc),
            claims_grow(*old(alloc), *alloc),
            count <= 0x10_0000_0000,
            va_base + count * 4096 <= u64::MAX,
            pa_base + count * 4096 <= u64::MAX,
            0 <= i <= count,
            i < 0x10_0000_0000 ==> page_number((va_base + i * 4096) as u64) == (page_number(va_base)
                + i) % 0x10_0000_0000,
            forall|vb: u64| #[trigger] page_entry(mem@, root, vb) == (if page_offset(vb, va_base)
                < i {
                range_entry(vb, va_base, pa_base, flags)
            } else {
                page_entry(m0, root, vb)
            }),
        decreases count - i,
    {
        let va = va_base + i * PAGE_SIZE;
        let pa = pa_base + i * PAGE_SIZE;
        let ghost m1 = mem@;
        match map_page(mem, alloc, root, va, pa, flags) {
            Ok(()) => {},
            Err(e) => {
                return Err(e);
            },
        }
        proof {
            assert forall|vb: u64| #[trigger] page_entry(mem@, root, vb) == (if page_offset(
                vb,
                va_base,
            ) < i + 1 {
                range_entry(vb, va_base, pa_base, flags)
            } else {
                page_entry(m0, root, vb)
            }) by {
                lemma_offset_step(vb, va, va_base, i as int);
                if page_number(vb) == page_number(va) {
                    lemma_entry_by_page(mem@, root, vb, va);
                    assert(pa == ((pa_base + page_offset(vb, va_base) * 4096) as u64));
                } else {
                    assert(page_entry(mem@, root, vb) == page_entry(m1, root, vb));
                }
            }
            if i + 1 < 0x10_0000_0000 {
                lemma_next_page_bits(va);
                lemma_index_bits(va_base);
                assert((va + 4096) as u64 == (va_base + (i + 1) * 4096) as u64);
            }
        }
        i = i + 1;
    }
    Ok(())
}

/// The first page of segment `s`.
pub open spec fn seg_va_base(s: LoadedSegment) -> u64 {
    round_down(s.virt_addr as int, PAGE_SIZE as int) as u64
}

/// The frame that the first page of segment `s` maps to.
pub open spec fn seg_pa_base(s: LoadedSegment) -> u64 {
    round_down(s.phys_addr as int, PAGE_SIZE as int) as u64
}

/// How many pages segment `s` spans, from its first page to its last byte.
pub open spec fn seg_pages(s: LoadedSegment) -> int {
    (s.virt_addr % 4096 + s.mem_size + 4095) / 4096
}

/// The arithmetic of mapping segment `s` stays in 64 bits, and the segment spans at
/// most the 48-bit space.
pub open spec fn segment_ok(s: LoadedSegment) -> bool {
    &&& s.virt_addr % 4096 + s.mem_size + 4095 <= u64::MAX
    &&& seg_pages(s) <= 0x10_0000_0000
    &&& seg_va_base(s) + seg_pages(s) * 4096 <= u64::MAX
    &&& seg_pa_base(s) + seg_pages(s) * 4096 <= u64::MAX
}

/// The page of `va` is one of the pages of segment `s`.
pub open spec fn seg_covers(s: LoadedSegment, va: u64) -> bool {
    page_offset(va, seg_va_base(s)) < seg_pages(s)
}

/// The entry that the last of the first `n` segments to cover the page of `va`
/// gives it.
pub open spec fn kernel_entry(segs: Seq<LoadedSegment>, n: int, va: u64) -> Option<u64>
    decreases n,
{
    if n <= 0 {
        None
    } else if seg_covers(segs[n - 1], va) {
        Some(range_entry(va, seg_va_base(segs[n - 1]), seg_pa_base(segs[n - 1]), DEFAULT_FLAG))
    } else {
        kernel_entry(segs, n - 1, va)
    }
}

/// Maps the pages of each kernel segment to its frames, writable; a page that two
/// segments share keeps the later one's frame.
pub fn map_kernel_segments(
    mem: &mut TableMemory,
    alloc: &mut PhysicalAllocator,
    root: u64,
    segs: &Vec<LoadedSegment>,
) -> (r: Result<(), OutOfFrames>)
    requires
        old(mem).wf(root, *old(alloc)),
        forall|k: int| 0 <= k < segs@.len() ==> segment_ok(#[trigger] segs@[k]),
    ensures
        final(mem).wf(root, *final(alloc)),
        claims_grow(*old(alloc), *final(alloc)),
        r is Ok ==> forall|va: u64| #[trigger] page_entry(final(mem)@, root, va) == (match kernel_entry(
            segs@,
            segs@.len() as int,
            va,
        ) {
            Some(e) => e,
            None => page_entry(old(mem)@, root, va),
        }),
        r is Err ==> !(final(alloc).can_alloc(PAGE_SIZE as int) && final(alloc).no_overflow(
            PAGE_SIZE as int,
        )),
{
    let ghost m0 = mem@;
    let mut k: usize = 0;
    while k < segs.len()
        invariant
            mem.wf(root, *alloc),
            claims_grow(*old(alloc), *alloc),
            0 <= k <= segs@.len(),
            forall|j: int| 0 <= j < segs@.len() ==> segment_ok(#[trigger] segs@[j]),
            forall|va: u64| #[trigger] page_entry(mem@, root, va) == (match kernel_entry(
                segs@,
                k as int,
                va,
            ) {
                Some(e) => e,
                None => page_entry(m0, root, va),
            }),
        decreases segs@.len() - k,
    {
        let seg = &segs[k];
        let page_offset = seg.virt_addr & (PAGE_SIZE - 1);
        let va_base = align_down(seg.virt_addr);
        let pa_base = align_down(seg.phys_addr);
        proof {
            lemma_page_low_bits(seg.virt_addr);
            assert(segment_ok(segs@[k as int]));
        }
        let span = page_offset + seg.mem_size;
        let page_count = (span + PAGE_SIZE - 1) / PAGE_SIZE;
        match map_pages(mem, alloc, root, va_base, pa_base, page_count, DEFAULT_FLAG) {
            Ok(()) => {},
            Err(e) => {
                return Err(e);
            },
        }
        k = k + 1;
    }
    Ok(())
}

/// How many pages past the bottom of the kernel stack area the page of `va` lies.
pub open spec fn stack_slot(va: u64) -> int {
    page_offset(va, KERNEL_STACK_VIRT_BASE)
}

/// The page of `va` is one of the kernel stack pages that get frames: all pages
/// of the stack area but the lowest, which stays unmapped as a guard.
pub open spec fn in_stack(va: u64) -> bool {
    1 <= stack_slot(va) < 0x101
}

/// Maps each kernel stack page but the guard page to a new frame from `alloc`, and
/// gives the frames in page order.
fn map_kernel_stack(
    mem: &mut TableMemory,
    alloc: &mut PhysicalAllocator,
    root: u64,
) -> (r: Result<Ghost<Seq<u64>>, OutOfFrames>)
    requires
        old(mem).wf(root, *old(alloc)),
    ensures
        final(mem).wf(root, *final(alloc)),
        claims_grow(*old(alloc), *final(alloc)),
        match r {
            Ok(g) => {
                &&& g@.len() == 0x100
                &&& forall|k: int|
                    0 <= k < 0x100 ==> !old(alloc).claimed(#[trigger] g@[k]) && final(alloc).claimed(
                        g@[k],
                    ) && g@[k] % PAGE_SIZE == 0
                &&& forall|a: int, b: int| 0 <= a < b < 0x100 ==> #[trigger] g@[a] != #[trigger] g@[b]
                &&& forall|va: u64| #[trigger] page_entry(final(mem)@, root, va) == (if in_stack(va) {
                    g@[stack_slot(va) - 1] | DEFAULT_FLAG
                } else {
                    page_entry(old(mem)@, root, va)
                })
            },
            Err(_) => !(final(alloc).can_alloc(PAGE_SIZE as int) && final(alloc).no_overflow(
                PAGE_SIZE as int,
            )),
        },
{
    let ghost m0 = mem@;
    let ghost mut frames: Seq<u64> = Seq::empty();
    let page_count = KERNEL_STACK_STRIDE / PAGE_SIZE;
    proof {
        lemma_stack_page_bits(0);
    }
    let mut i: u64 = 1;
    while i < page_count
        invariant
            mem.wf(root, *alloc),
            claims_grow(*old(alloc), *alloc),
            old(alloc).sane(),
            page_count == 0x101,
            1 <= i <= 0x101,
            frames.len() == i - 1,
            forall|k: int|
                0 <= k < frames.len() ==> !old(alloc).claimed(#[trigger] frames[k]) && alloc.claimed(
                    frames[k],
                ) && frames[k] % PAGE_SIZE == 0,
            forall|a: int, b: int| 0 <= a < b < frames.len() ==> #[trigger] frames[a] != #[trigger] frames[b],
            forall|va: u64| #[trigger] page_entry(mem@, root, va) == (if 1 <= stack_slot(va) < i {
                frames[stack_slot(va) - 1] | DEFAULT_FLAG
            } else {
                page_entry(m0, root, va)
            }),
        decreases page_count - i,
    {
        let ghost a1 = *alloc;
        let pa = match alloc.try_alloc_frame() {
            Some(p) => p,
            None => {
                return Err(OutOfFrames);
            },
        };
        proof {
            a1.lemma_fresh_frame(pa, *alloc);
            assert forall|f: u64| #[trigger] mem@.dom().contains(f) implies alloc.claimed(f) by {
                assert(a1.claimed(f));
            }
            assert forall|f: u64| old(alloc).claimed(f) implies #[trigger] alloc.claimed(f) by {
                assert(a1.claimed(f));
            }
        }
        let va = KERNEL_STACK_VIRT_BASE + PAGE_SIZE * i;
        let ghost m1 = mem@;
        let ghost a2 = *alloc;
        match map_page(mem, alloc, root, va, pa, DEFAULT_FLAG) {
            Ok(()) => {},
            Err(e) => {
                return Err(e);
            },
        }
        proof {
            lemma_stack_page_bits(i);
            lemma_stack_page_bits(0);
            assert(page_number(KERNEL_STACK_VIRT_BASE) == 0xF_FFF9_0000);
            assert(page_number(va) == 0xF_FFF9_0000 + i);
            lemma_indices(KERNEL_STACK_VIRT_BASE);
            lemma_index_bits(KERNEL_STACK_VIRT_BASE);
            let old_frames = frames;
            frames = frames.push(pa);
            assert forall|k: int|
                0 <= k < frames.len() implies !old(alloc).claimed(#[trigger] frames[k]) && alloc.claimed(
                frames[k],
            ) && frames[k] % PAGE_SIZE == 0 by {
                if k < old_frames.len() {
                    assert(a1.claimed(old_frames[k]));
                    assert(a2.claimed(old_frames[k]));
                } else {
                    assert(a2.claimed(pa));
                    if old(alloc).claimed(pa) {
                        assert(a1.claimed(pa));
                    }
                }
            }
            assert forall|a: int, b: int| 0 <= a < b < frames.len() implies #[trigger] frames[a]
                != #[trigger] frames[b] by {
                if b == frames.len() - 1 {
                    assert(a1.claimed(old_frames[a]));
                }
            }
            assert forall|vb: u64| #[trigger] page_entry(mem@, root, vb) == (if 1 <= stack_slot(vb)
                < i + 1 {
                frames[stack_slot(vb) - 1] | DEFAULT_FLAG
            } else {
                page_entry(m0, root, vb)
            }) by {
                lemma_offset_step(vb, va, KERNEL_STACK_VIRT_BASE, i as int);
                if page_number(vb) == page_number(va) {
                    lemma_entry_by_page(mem@, root, vb, va);
                } else {
                    assert(page_entry(mem@, root, vb) == page_entry(m1, root, vb));
                }
            }
        }
        i = i + 1;
    }
    Ok(Ghost(frames))
}

fn map_mmio_region(
    mem: &mut TableMemory,
    alloc: &mut PhysicalAllocator,
    root: u64,
    phys_addr: u64,
    size: usize,
) -> (r: Result<u64, OutOfFrames>)
    requires
        old(mem).wf(root, *old(alloc)),
        range_ok(phys_addr, size as u64, FRAMEBUFFER_VIRT_BASE),
    ensures
        final(mem).wf(root, *final(alloc)),
        claims_grow(*old(alloc), *final(alloc)),
        match r {
            Ok(v) => {
                &&& v == FRAMEBUFFER_VIRT_BASE + (phys_addr - round_down(
                    phys_addr as int,
                    PAGE_SIZE as int,
                ))
                &&& forall|va: u64| #[trigger] page_entry(final(mem)@, root, va) == (if range_covers(
                    va,
                    FRAMEBUFFER_VIRT_BASE,
                    phys_addr,
                    size as u64,
                ) {
                    phys_range_entry(va, FRAMEBUFFER_VIRT_BASE, phys_addr, MMIO_FLAGS)
                } else {
                    page_entry(old(mem)@, root, va)
                })
            },
            Err(_) => !(final(alloc).can_alloc(PAGE_SIZE as int) && final(alloc).no_overflow(
                PAGE_SIZE as int,
            )),
        },
{
    map_physical_range(mem, alloc, root, phys_addr, size as u64, FRAMEBUFFER_VIRT_BASE, MMIO_FLAGS)
}

fn map_boot_info_region(
    mem: &mut TableMemory,
    alloc: &mut PhysicalAllocator,
    root: u64,
    phys_addr: u64,
    size: u64,
) -> (r: Result<u64, OutOfFrames>)
    requires
        old(mem).wf(root, *old(alloc)),
        range_ok(phys_addr, size, BOOTINFO_VIRT_BASE),
    ensures
        final(mem).wf(root, *final(alloc)),
        claims_grow(*old(alloc), *final(alloc)),
        match r {
            Ok(v) => {
                &&& v == BOOTINFO_VIRT_BASE + (phys_addr - round_down(phys_addr as int, PAGE_SIZE as int))
                &&& forall|va: u64| #[trigger] page_entry(final(mem)@, root, va) == (if range_covers(
                    va,
                    BOOTINFO_VIRT_BASE,
                    phys_addr,
                    size,
                ) {
                    phys_range_entry(va, BOOTINFO_VIRT_BASE, phys_addr, DEFAULT_FLAG)
                } else {
                    page_entry(old(mem)@, root, va)
                })
            },
            Err(_) => !(final(alloc).can_alloc(PAGE_SIZE as int) && final(alloc).no_overflow(
                PAGE_SIZE as int,
            )),
        },
{
    map_physical_range(mem, alloc, root, phys_addr, size, BOOTINFO_VIRT_BASE, DEFAULT_FLAG)
}

fn map_memory_map(
    mem: &mut TableMemory,
    alloc: &mut PhysicalAllocator,
    root: u64,
    memmap_phys: u64,
    len: u64,
    region_size: u64,
    virt_base: u64,
) -> (r: Result<u64, OutOfFrames>)
    requires
        old(mem).wf(root, *old(alloc)),
        len * region_size <= u64::MAX,
        range_ok(memmap_phys, (len * region_size) as u64, virt_base),
    ensures
        final(mem).wf(root, *final(alloc)),
        claims_grow(*old(alloc), *final(alloc)),
        match r {
            Ok(v) => {
                &&& v == virt_base + (memmap_phys - round_down(memmap_phys as int, PAGE_SIZE as int))
                &&& forall|va: u64| #[trigger] page_entry(final(mem)@, root, va) == (if range_covers(
                    va,
                    virt_base,
                    memmap_phys,
                    (len * region_size) as u64,
                ) {
                    phys_range_entry(va, virt_base, memmap_phys, DEFAULT_FLAG)
                } else {
                    page_entry(old(mem)@, root, va)
                })
            },
            Err(_) => !(final(alloc).can_alloc(PAGE_SIZE as int) && final(alloc).no_overflow(
                PAGE_SIZE as int,
            )),
        },
{
    let size = len * region_size;
    map_physical_range(mem, alloc, root, memmap_phys, size, virt_base, DEFAULT_FLAG)
}

/// The framebuffer's size in bytes: `height` rows of `stride` pixels of 4 bytes.
pub open spec fn fb_bytes(fb: FramebufferInfo) -> int {
    fb.height * fb.stride * 4
}

/// Where the memory map is mapped.
pub open spec fn memmap_virt_base() -> u64 {
    (BOOTINFO_VIRT_BASE + 0x10000) as u64
}

/// What the boot tables map the page of `va` to, for every page but the kernel
/// stack pages: the last kernel segment that covers it, else the framebuffer,
/// else the memory map, else the boot information, else the direct map of usable
/// memory, else the identity mapping, else nothing.
pub open spec fn boot_entry(
    regions: Seq<MemoryRegion>,
    identity_limit: u64,
    bootinfo_phys: u64,
    bootinfo_size: u64,
    memmap_phys: u64,
    memmap_size: u64,
    fb: Option<(u64, u64)>,
    segs: Seq<LoadedSegment>,
    va: u64,
) -> u64 {
    match kernel_entry(segs, segs.len() as int, va) {
        Some(e) => e,
        None => if fb_covers(fb, va) {
            fb_entry(fb, va)
        } else if range_covers(va, memmap_virt_base(), memmap_phys, memmap_size) {
            phys_range_entry(va, memmap_virt_base(), memmap_phys, DEFAULT_FLAG)
        } else if range_covers(va, BOOTINFO_VIRT_BASE, bootinfo_phys, bootinfo_size) {
            phys_range_entry(va, BOOTINFO_VIRT_BASE, bootinfo_phys, DEFAULT_FLAG)
        } else if direct_covers(regions, regions.len() as int, va) {
            direct_entry(va)
        } else if huge_number(va) < round_up(identity_limit as int, PAGE_SIZE_2M as int) / (
        PAGE_SIZE_2M as int) {
            identity_entry(va)
        } else {
            0
        },
    }
}

/// The page of `va` is one of the framebuffer's pages, mapped at
/// `FRAMEBUFFER_VIRT_BASE`.
pub open spec fn fb_covers(fb: Option<(u64, u64)>, va: u64) -> bool {
    match fb {
        Some((addr, size)) => range_covers(va, FRAMEBUFFER_VIRT_BASE, addr, size),
        None => false,
    }
}

/// The uncached entry that the framebuffer mapping gives the page of `va`.
pub open spec fn fb_entry(fb: Option<(u64, u64)>, va: u64) -> u64 {
    match fb {
        Some((addr, size)) => phys_range_entry(va, FRAMEBUFFER_VIRT_BASE, addr, MMIO_FLAGS),
        None => 0,
    }
}

/// The framebuffer's address and size, if there is one.
pub open spec fn fb_range(fb: Option<FramebufferInfo>) -> Option<(u64, u64)> {
    match fb {
        Some(f) => Some((f.addr, fb_bytes(f) as u64)),
        None => None,
    }
}

/// The framebuffer information with its address moved to where the tables map it.
pub open spec fn fb_remapped(fb: Option<FramebufferInfo>) -> Option<FramebufferInfo> {
    match fb {
        Some(f) => Some(
            FramebufferInfo {
                addr: (FRAMEBUFFER_VIRT_BASE + (f.addr - round_down(f.addr as int, PAGE_SIZE as int)))
                    as u64,
                width: f.width,
                height: f.height,
                stride: f.stride,
            },
        ),
        None => None,
    }
}

/// Builds the boot page tables in frames from `alloc`: physical memory up to
/// `identity_limit` identity-mapped in 2 MiB pages, usable memory mapped again at
/// `PHYS_OFFSET`, the boot information (`bootinfo_size` bytes at `bootinfo_phys`)
/// and the memory map (`region_size` bytes per region at `memmap_phys`) near
/// `BOOTINFO_VIRT_BASE`, the framebuffer at `FRAMEBUFFER_VIRT_BASE` uncached, the
/// kernel segments where they are linked, and the kernel stack below its top with
/// its lowest page left unmapped. The framebuffer address in `bootinfo` becomes the
/// virtual one; the memory map's virtual address is returned with the tables.
pub fn build_boot_page_tables(
    alloc: &mut PhysicalAllocator,
    kernel: &KernelLoadInfo,
    identity_limit: u64,
    bootinfo: &mut BootInfo,
    bootinfo_phys: u64,
    bootinfo_size: u64,
    memmap_phys: u64,
    region_size: u64,
) -> (r: Result<(TableMemory, BootPageTablesInfo, u64), OutOfFrames>)
    requires
        old(alloc).sane(),
        identity_limit <= 0xFFFF_FFE0_0000,
        forall|i: int|
            0 <= i < old(bootinfo).memory_regions@.len() && spec_early_usable(
                #[trigger] old(bootinfo).memory_regions@[i].kind,
            ) ==> old(bootinfo).memory_regions@[i].end <= 0x7FFF_FFE0_0000,
        range_ok(bootinfo_phys, bootinfo_size, BOOTINFO_VIRT_BASE),
        old(bootinfo).memory_regions@.len() * region_size <= u64::MAX,
        range_ok(
            memmap_phys,
            (old(bootinfo).memory_regions@.len() * region_size) as u64,
            memmap_virt_base(),
        ),
        match old(bootinfo).framebuffer {
            Some(fb) => fb_bytes(fb) <= usize::MAX && range_ok(
                fb.addr,
                fb_bytes(fb) as u64,
                FRAMEBUFFER_VIRT_BASE,
            ),
            None => true,
        },
        forall|k: int| 0 <= k < kernel.segments@.len() ==> segment_ok(#[trigger] kernel.segments@[k]),
    ensures
        claims_grow(*old(alloc), *final(alloc)),
        match r {
            Ok((mem, info, memmap_virt)) => {
                &&& mem.wf(info.pml4_phys, *final(alloc))
                &&& !old(alloc).claimed(info.pml4_phys)
                &&& info.bootinfo_virt == BOOTINFO_VIRT_BASE + (bootinfo_phys - round_down(
                    bootinfo_phys as int,
                    PAGE_SIZE as int,
                ))
                &&& info.kernel_stack_top == KERNEL_STACK_VIRT_BASE + KERNEL_STACK_STRIDE
                &&& memmap_virt == memmap_virt_base() + (memmap_phys - round_down(
                    memmap_phys as int,
                    PAGE_SIZE as int,
                ))
                &&& final(bootinfo).memory_regions == old(bootinfo).memory_regions
                &&& final(bootinfo).framebuffer == fb_remapped(old(bootinfo).framebuffer)
                &&& final(bootinfo).kernel_stack_top == old(bootinfo).kernel_stack_top
                &&& final(bootinfo).phys_alloc_current == old(bootinfo).phys_alloc_current
                &&& final(bootinfo).phys_alloc_next == old(bootinfo).phys_alloc_next
                &&& final(bootinfo).rsdp == old(bootinfo).rsdp
                &&& final(bootinfo).identity_limit == old(bootinfo).identity_limit
                &&& forall|va: u64|
                    !in_stack(va) ==> #[trigger] page_entry(mem@, info.pml4_phys, va) == boot_entry(
                        old(bootinfo).memory_regions@,
                        identity_limit,
                        bootinfo_phys,
                        bootinfo_size,
                        memmap_phys,
                        (old(bootinfo).memory_regions@.len() * region_size) as u64,
                        fb_range(old(bootinfo).framebuffer),
                        kernel.segments@,
                        va,
                    )
                &&& forall|va: u64|
                    in_stack(va) ==> exists|f: u64|
                        #![trigger old(alloc).claimed(f)]
                        page_entry(mem@, info.pml4_phys, va) == f | DEFAULT_FLAG && f % PAGE_SIZE
                            == 0 && !old(alloc).claimed(f) && final(alloc).claimed(f)
                &&& forall|va1: u64, va2: u64|
                    in_stack(va1) && in_stack(va2) && stack_slot(va1) != stack_slot(va2)
                        ==> #[trigger] page_entry(mem@, info.pml4_phys, va1) != #[trigger] page_entry(
                        mem@,
                        info.pml4_phys,
                        va2,
                    )
            },
            Err(_) => !(final(alloc).can_alloc(PAGE_SIZE as int) && final(alloc).no_overflow(
                PAGE_SIZE as int,
            )),
        },
{
    let (mut mem, pml4) = match new_tables(alloc) {
        Ok(t) => t,
        Err(e) => {
            return Err(e);
        },
    };
    let ghost m0 = mem@;
    match identity_map_upto_2mib(&mut mem, alloc, pml4, identity_limit) {
        Ok(()) => {},
        Err(e) => {
            return Err(e);
        },
    }
    let ghost m1 = mem@;
    match map_direct_regions(&mut mem, alloc, pml4, bootinfo.memory_regions) {
        Ok(()) => {},
        Err(e) => {
            return Err(e);
        },
    }
    let ghost m2 = mem@;
    let bootinfo_virt = match map_boot_info_region(&mut mem, alloc, pml4, bootinfo_phys, bootinfo_size) {
        Ok(v) => v,
        Err(e) => {
            return Err(e);
        },
    };
    let ghost m3 = mem@;
    let memmap_virt_base = BOOTINFO_VIRT_BASE + 0x10000;
    let len = bootinfo.memory_regions.len() as u64;
    let memmap_virt = match map_memory_map(
        &mut mem,
        alloc,
        pml4,
        memmap_phys,
        len,
        region_size,
        memmap_virt_base,
    ) {
        Ok(v) => v,
        Err(e) => {
            return Err(e);
        },
    };
    let ghost m4 = mem@;
    let fb_opt: Option<(u64, usize, usize, usize)> = match &bootinfo.framebuffer {
        Some(fb) => Some((fb.addr, fb.width, fb.height, fb.stride)),
        None => None,
    };
    if let Some((addr, width, height, stride)) = fb_opt {
        let fb_size_bytes = (height * stride * 4) as u64;
        let fb_virt = match map_mmio_region(&mut mem, alloc, pml4, addr, fb_size_bytes as usize) {
            Ok(v) => v,
            Err(e) => {
                return Err(e);
            },
        };
        bootinfo.framebuffer = Some(FramebufferInfo { addr: fb_virt, width, height, stride });
    }
    let ghost m5 = mem@;
    match map_kernel_segments(&mut mem, alloc, pml4, &kernel.segments) {
        Ok(()) => {},
        Err(e) => {
            return Err(e);
        },
    }
    let ghost m6 = mem@;
    let frames = match map_kernel_stack(&mut mem, alloc, pml4) {
        Ok(g) => g,
        Err(e) => {
            return Err(e);
        },
    };
    let kernel_stack_top = KERNEL_STACK_VIRT_BASE + KERNEL_STACK_STRIDE;
    proof {
        let regions = old(bootinfo).memory_regions@;
        assert forall|va: u64|
            !in_stack(va) implies #[trigger] page_entry(mem@, pml4, va) == boot_entry(
            regions,
            identity_limit,
            bootinfo_phys,
            bootinfo_size,
            memmap_phys,
            (regions.len() * region_size) as u64,
            fb_range(old(bootinfo).framebuffer),
            kernel.segments@,
            va,
        ) by {
            assert(page_entry(m0, pml4, va) == 0);
        }
        assert forall|va: u64| in_stack(va) implies exists|f: u64|
            #![trigger old(alloc).claimed(f)]
            page_entry(mem@, pml4, va) == f | DEFAULT_FLAG && f % PAGE_SIZE == 0 && !old(
                alloc,
            ).claimed(f) && alloc.claimed(f) by {
            let f = frames@[stack_slot(va) - 1];
            assert(!old(alloc).claimed(f));
        }
        assert forall|va1: u64, va2: u64|
            in_stack(va1) && in_stack(va2) && stack_slot(va1) != stack_slot(va2) implies #[trigger] page_entry(
            mem@,
            pml4,
            va1,
        ) != #[trigger] page_entry(mem@, pml4, va2) by {
            let a = stack_slot(va1) - 1;
            let b = stack_slot(va2) - 1;
            lemma_frame_low_bits(frames@[a]);
            lemma_frame_low_bits(frames@[b]);
            if a < b {
                assert(frames@[a] != frames@[b]);
            } else {
                assert(frames@[b] != frames@[a]);
            }
            lemma_distinct_frame_entries(frames@[a], frames@[b]);
        }
    }
    Ok((mem, BootPageTablesInfo { pml4_phys: pml4, bootinfo_virt, kernel_stack_top }, memmap_virt))
}

} // verus!
