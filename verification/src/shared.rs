use vstd::prelude::*;

verus! {

pub const KIBI: u64 = 0x400;
pub const MIBI: u64 = 0x100000;
pub const GIBI: u64 = 0x400000000;

pub const HZ: u32 = 1000;

pub const PAGE_SIZE: u64 = 0x1000;
pub const PAGE_SIZE_2M: u64 = 0x200000;
pub const BOOTINFO_VIRT_BASE: u64 = 0xFFFF_FFFF_A000_0000;
pub const FRAMEBUFFER_VIRT_BASE: u64 = 0xFFFF_FFFF_B000_0000;
pub const PHYS_OFFSET: u64 = 0xFFFF_8000_0000_0000;
pub const KERNEL_STACK_SIZE: u64 = 0x100000;
pub const KERNEL_STACK_GUARD: u64 = 0x1000;
pub const KERNEL_STACK_STRIDE: u64 = 0x101000;
pub const KERNEL_STACK_VIRT_BASE: u64 = 0xFFFF_FFFF_9000_0000;
pub const KERNEL_HEAP_BASE: u64 = 0xFFFF_FFFF_C000_0000;
pub const KERNEL_HEAP_SIZE: u64 = 0x100_0000;
pub const MAX_BOOT_PHYS: u64 = 0x1_0000_0000;

pub const USER_SPACE_BOTTOM: u64 = 0x0000_0000_0020_0000;
pub const USER_SPACE_TOP: u64 = 0x0000_0000_8000_0000;
pub const PROCESS_STACK_PAGES: u64 = 8;
pub const USER_SPACE_MAX_HEAP_SIZE: u64 = 0x800_0000;
pub const USER_MMAP_TOP: u64 = 0x7F00_0000;

pub const PROC_KERNEL_STACK_REGION_TOP: u64 = 0xFFFF_FFFF_FF00_0000;
pub const PROC_KERNEL_STACK_PAGES: u64 = 8;
pub const PROC_KERNEL_STACK_STRIDE_PAGES: u64 = 9;
pub const PROC_KERNEL_STACK_STRIDE: u64 = 0x9000;

pub const LAPIC_EOI: u64 = 0xB0;

/// The lowest physical address that the boot allocator hands out.
pub const LOW_MEMORY_LIMIT: u64 = 0x0010_0000;

#[derive(Debug, Clone, Copy, PartialEq, Eq, Structural)]
pub enum MemoryRegionKind {
    Usable,
    EarlyReclaimable,
    LateReclaimable,
    LoaderCode,
    LoaderData,
    Reserved,
    Unknown,
    AcpiReclaimable,
}

#[derive(Debug, Clone, Copy)]
pub struct MemoryRegion {
    pub start: u64,
    pub end: u64,
    pub kind: MemoryRegionKind,
}

#[derive(Debug)]
pub struct FramebufferInfo {
    pub addr: u64,
    pub width: usize,
    pub height: usize,
    pub stride: usize,
}

#[derive(Debug)]
pub struct BootInfo {
    pub memory_regions: &'static [MemoryRegion],
    pub framebuffer: Option<FramebufferInfo>,
    pub kernel_stack_top: u64,
    pub phys_alloc_current: usize,
    pub phys_alloc_next: u64,
    pub rsdp: u64,
    pub identity_limit: u64,
}

/// Kinds of memory that may be handed out before the kernel takes over.
pub open spec fn spec_early_usable(kind: MemoryRegionKind) -> bool {
    kind == MemoryRegionKind::Usable || kind == MemoryRegionKind::EarlyReclaimable
        || kind == MemoryRegionKind::AcpiReclaimable
}

/// `addr` rounded down to a multiple of `unit`.
pub open spec fn round_down(addr: int, unit: int) -> int {
    (addr / unit) * unit
}

/// `addr` rounded up to a multiple of `unit`.
pub open spec fn round_up(addr: int, unit: int) -> int {
    ((addr + unit - 1) / unit) * unit
}

pub open spec fn max_u64(a: u64, b: u64) -> u64 {
    if a >= b { a } else { b }
}

pub open spec fn min_u64(a: u64, b: u64) -> u64 {
    if a <= b { a } else { b }
}

pub fn align_down(addr: u64) -> (r: u64)
    ensures
        r == round_down(addr as int, PAGE_SIZE as int),
{
    let r = addr & !(PAGE_SIZE - 1);
    assert(addr & !0xfffu64 == (addr / 0x1000) * 0x1000) by (bit_vector);
    r
}

pub fn align_up(addr: u64) -> (r: u64)
    requires
        addr + (PAGE_SIZE - 1) <= u64::MAX,
    ensures
        r == round_up(addr as int, PAGE_SIZE as int),
{
    let s = addr + (PAGE_SIZE - 1);
    let r = s & !(PAGE_SIZE - 1);
    assert(s & !0xfffu64 == (s / 0x1000) * 0x1000) by (bit_vector);
    r
}

pub fn align_down_2mb(addr: u64) -> (r: u64)
    ensures
        r == round_down(addr as int, PAGE_SIZE_2M as int),
{
    let r = addr & !(PAGE_SIZE_2M - 1);
    assert(addr & !0x1fffffu64 == (addr / 0x200000) * 0x200000) by (bit_vector);
    r
}

pub fn align_up_2mb(addr: u64) -> (r: u64)
    requires
        addr + (PAGE_SIZE_2M - 1) <= u64::MAX,
    ensures
        r == round_up(addr as int, PAGE_SIZE_2M as int),
{
    let s = addr + (PAGE_SIZE_2M - 1);
    let r = s & !(PAGE_SIZE_2M - 1);
    assert(s & !0x1fffffu64 == (s / 0x200000) * 0x200000) by (bit_vector);
    r
}

/// Scales a byte count to the largest unit (GIBI, MIBI, KIBI, or bytes) that it reaches.
pub fn fmt_bytes(bytes: u64) -> (r: (u64, &'static str))
    ensures
        bytes >= GIBI ==> r.0 == bytes / GIBI && r.1@ == "GiB"@,
        MIBI <= bytes < GIBI ==> r.0 == bytes / MIBI && r.1@ == "MiB"@,
        KIBI <= bytes < MIBI ==> r.0 == bytes / KIBI && r.1@ == "KiB"@,
        bytes < KIBI ==> r.0 == bytes && r.1@ == "B"@,
{
    if bytes >= GIBI {
        (bytes / GIBI, "GiB")
    } else if bytes >= MIBI {
        (bytes / MIBI, "MiB")
    } else if bytes >= KIBI {
        (bytes / KIBI, "KiB")
    } else {
        (bytes, "B")
    }
}

pub fn early_usable(kind: MemoryRegionKind) -> (r: bool)
    ensures
        r == spec_early_usable(kind),
{
    match kind {
        MemoryRegionKind::Usable | MemoryRegionKind::EarlyReclaimable
        | MemoryRegionKind::AcpiReclaimable => true,
        _ => false,
    }
}


/// Rounding up to a page moves a value by less than a page onto a page boundary.
pub proof fn lemma_round_up_page(x: int)
    requires
        x >= 0,
    ensures
        x <= round_up(x, PAGE_SIZE as int) < x + PAGE_SIZE,
        round_up(x, PAGE_SIZE as int) % (PAGE_SIZE as int) == 0,
{
    assert(x <= ((x + 4095) / 4096) * 4096 < x + 4096) by (nonlinear_arith)
        requires
            x >= 0,
    ;
    assert((((x + 4095) / 4096) * 4096) % 4096 == 0) by (nonlinear_arith);
}

/// Frame `f` lies in region `r`.
pub open spec fn region_holds(r: MemoryRegion, f: u64) -> bool {
    r.start <= f < r.end
}

/// No two regions of a memory map share an address.
pub open spec fn regions_disjoint(rs: Seq<MemoryRegion>) -> bool {
    forall|i: int, j: int|
        0 <= i < rs.len() && 0 <= j < rs.len() && i != j ==> #[trigger] rs[i].end <= #[trigger] rs[
            j
        ].start || rs[j].end <= rs[i].start
}

pub struct PhysicalAllocator {
    pub regions: &'static [MemoryRegion],
    pub current: usize,
    pub next: u64,
}

/// A region at or above the low-memory limit from which early allocation may start.
pub open spec fn is_first_candidate(r: MemoryRegion) -> bool {
    spec_early_usable(r.kind) && r.start >= LOW_MEMORY_LIMIT
}

/// The region index where a new boot allocator starts: the first candidate, or 0.
pub open spec fn first_candidate_index(regions: Seq<MemoryRegion>) -> int {
    if exists|i: int| 0 <= i < regions.len() && is_first_candidate(#[trigger] regions[i]) {
        choose|i: int|
            0 <= i < regions.len() && is_first_candidate(#[trigger] regions[i]) && forall|j: int|
                0 <= j < i ==> !is_first_candidate(#[trigger] regions[j])
    } else {
        0
    }
}

impl PhysicalAllocator {
    /// Where an allocation would start in region `i` when scanning from `self.current`:
    /// the allocator's own cursor in the current region, the region's start (but not
    /// below the low-memory limit) in later regions.
    pub open spec fn base_at(self, i: int) -> u64 {
        if i == self.current as int {
            self.next
        } else {
            max_u64(self.regions@[i].start, LOW_MEMORY_LIMIT)
        }
    }

    /// Region `i` is usable and `size` bytes fit at the page-aligned base, below the
    /// region's end and below the boot identity limit.
    pub open spec fn fits_at(self, i: int, size: int) -> bool {
        let r = self.regions@[i];
        spec_early_usable(r.kind) && round_up(self.base_at(i) as int, PAGE_SIZE as int) + size
            <= min_u64(r.end, MAX_BOOT_PHYS)
    }

    /// The scan reaches region `i`: no earlier region from the current one fits.
    pub open spec fn reaches(self, i: int, size: int) -> bool {
        forall|j: int| self.current <= j < i ==> !#[trigger] self.fits_at(j, size)
    }

    /// Some region from the current one on fits `size` bytes.
    pub open spec fn can_alloc(self, size: int) -> bool {
        exists|i: int| self.current <= i < self.regions@.len() && #[trigger] self.fits_at(i, size)
    }

    /// Every usable region that the scan reaches can be rounded and extended by `size`
    /// without leaving the 64-bit range.
    pub open spec fn no_overflow(self, size: int) -> bool {
        forall|i: int|
            self.current <= i < self.regions@.len() && spec_early_usable(
                #[trigger] self.regions@[i].kind,
            ) && self.reaches(i, size) ==> self.base_at(i) + PAGE_SIZE <= u64::MAX && round_up(
                self.base_at(i) as int,
                PAGE_SIZE as int,
            ) + size <= u64::MAX
    }

    /// The allocator state after a successful allocation of `size` bytes:
    /// the first region that fits becomes current, its aligned base is returned.
    pub open spec fn allocated_from(self, size: int, p: u64, after: Self) -> bool {
        exists|i: int|
            self.current <= i < self.regions@.len() && #[trigger] self.fits_at(i, size)
                && self.reaches(i, size) && p == round_up(self.base_at(i) as int, PAGE_SIZE as int)
                && after.current == i && after.next == p + size && after.regions == self.regions
    }

    /// The allocator points into its map, its cursor lies inside the current region's
    /// lower bound and above the low-memory limit, and the map's regions are disjoint.
    pub open spec fn sane(self) -> bool {
        &&& self.current < self.regions@.len()
        &&& self.next >= self.regions@[self.current as int].start
        &&& self.next >= LOW_MEMORY_LIMIT
        &&& regions_disjoint(self.regions@)
    }

    /// Frame `f` has been handed out already: it lies in a region before the current
    /// one, or in the current region below the cursor.
    pub open spec fn claimed(self, f: u64) -> bool {
        ||| exists|j: int| 0 <= j < self.current && #[trigger] region_holds(self.regions@[j], f)
        ||| (region_holds(self.regions@[self.current as int], f) && f < self.next)
    }

    pub fn new(regions: &'static [MemoryRegion]) -> (r: Self)
        requires
            regions@.len() > 0,
        ensures
            r.regions == regions,
            r.current == first_candidate_index(regions@),
            r.next == max_u64(regions@[r.current as int].start, LOW_MEMORY_LIMIT),
    {
        let mut first: usize = 0;
        let mut found = false;
        let mut i: usize = 0;
        while i < regions.len() && !found
            invariant
                0 <= i <= regions@.len(),
                !found ==> first == 0 && forall|j: int|
                    0 <= j < i ==> !is_first_candidate(#[trigger] regions@[j]),
                found ==> first < regions@.len() && is_first_candidate(regions@[first as int])
                    && forall|j: int| 0 <= j < first ==> !is_first_candidate(#[trigger] regions@[j]),
            decreases regions@.len() - i + (if found { 0int } else { 1int }),
        {
            if early_usable(regions[i].kind) && regions[i].start >= LOW_MEMORY_LIMIT {
                first = i;
                found = true;
            } else {
                i = i + 1;
            }
        }
        proof {
            if exists|k: int| 0 <= k < regions@.len() && is_first_candidate(#[trigger] regions@[k]) {
                let k = choose|k: int| 0 <= k < regions@.len() && is_first_candidate(#[trigger] regions@[k]);
                assert(found);
                let c = first_candidate_index(regions@);
                assert(is_first_candidate(regions@[c]));
                if c < first {
                    assert(!is_first_candidate(regions@[c]));
                } else if c > first {
                    assert(!is_first_candidate(regions@[first as int]));
                }
                assert(c == first);
            } else {
                assert(!found);
            }
        }
        let start = regions[first].start;
        let next = if start >= LOW_MEMORY_LIMIT { start } else { LOW_MEMORY_LIMIT };
        Self { regions, current: first, next }
    }

    pub fn restore_from(regions: &'static [MemoryRegion], current: usize, next: u64) -> (r: Self)
        requires
            next + (PAGE_SIZE - 1) <= u64::MAX,
        ensures
            r.regions == regions,
            r.current == current,
            r.next == round_up(next as int, PAGE_SIZE as int),
    {
        let mut a = Self { regions, current, next };
        a.next = align_up(next);
        a
    }

    /// Hands out one page; the same scan as `alloc_frames` with one page.
    pub fn alloc_frame(&mut self) -> (p: u64)
        requires
            old(self).can_alloc(PAGE_SIZE as int),
            old(self).no_overflow(PAGE_SIZE as int),
        ensures
            old(self).allocated_from(PAGE_SIZE as int, p, *final(self)),
    {
        self.alloc_bytes(PAGE_SIZE)
    }

    pub fn alloc_frames(&mut self, num_pages: usize) -> (p: u64)
        requires
            num_pages * PAGE_SIZE <= u64::MAX,
            old(self).can_alloc(num_pages * PAGE_SIZE),
            old(self).no_overflow(num_pages * PAGE_SIZE),
        ensures
            old(self).allocated_from(num_pages * PAGE_SIZE, p, *final(self)),
    {
        let size = (num_pages as u64) * PAGE_SIZE;
        self.alloc_bytes(size)
    }

    /// Hands out one page like `alloc_frame`, but gives `None` and leaves the allocator
    /// as it was where the scan runs off the map or would overflow.
    pub fn try_alloc_frame(&mut self) -> (r: Option<u64>)
        ensures
            match r {
                Some(p) => old(self).allocated_from(PAGE_SIZE as int, p, *final(self)),
                None => *final(self) == *old(self),
            },
            old(self).current < old(self).regions@.len() && old(self).can_alloc(PAGE_SIZE as int)
                && old(self).no_overflow(PAGE_SIZE as int) ==> r is Some,
    {
        let ghost start = *self;
        let size: u64 = PAGE_SIZE;
        if self.current >= self.regions.len() {
            return None;
        }
        let mut cur: usize = self.current;
        let mut next: u64 = self.next;
        loop
            invariant
                start == *old(self),
                size == PAGE_SIZE,
                self.regions == start.regions,
                self.current == start.current,
                self.next == start.next,
                start.current <= cur < self.regions@.len(),
                start.reaches(cur as int, size as int),
                spec_early_usable(self.regions@[cur as int].kind) ==> next == start.base_at(
                    cur as int,
                ),
            decreases self.regions@.len() - cur,
        {
            let r = self.regions[cur];
            if early_usable(r.kind) {
                if next > u64::MAX - PAGE_SIZE {
                    proof {
                        start.lemma_overflow_at(cur as int, size as int);
                    }
                    return None;
                }
                let aligned = align_up(next);
                let end = if r.end <= MAX_BOOT_PHYS { r.end } else { MAX_BOOT_PHYS };
                if end >= PAGE_SIZE && aligned <= end - PAGE_SIZE {
                    self.current = cur;
                    self.next = aligned + PAGE_SIZE;
                    proof {
                        start.lemma_allocated_at(cur as int, size as int, aligned, *self);
                    }
                    return Some(aligned);
                }
                assert(!start.fits_at(cur as int, size as int));
            }
            if cur + 1 >= self.regions.len() {
                proof {
                    start.lemma_scan_exhausted(cur as int, size as int);
                }
                return None;
            }
            cur = cur + 1;
            let r2 = self.regions[cur];
            if early_usable(r2.kind) {
                next = if r2.start >= LOW_MEMORY_LIMIT { r2.start } else { LOW_MEMORY_LIMIT };
            }
        }
    }

    /// The allocator can hand out `n` pages one after another.
    pub open spec fn frames_available(self, n: nat) -> bool
        decreases n,
    {
        n == 0 || (self.current < self.regions@.len() && self.can_alloc(PAGE_SIZE as int)
            && self.no_overflow(PAGE_SIZE as int) && forall|p: u64, b: PhysicalAllocator|
            #[trigger] self.allocated_from(PAGE_SIZE as int, p, b) ==> b.frames_available(
                (n - 1) as nat,
            ))
    }

    /// An allocator that can hand out `n` pages can hand out fewer.
    pub proof fn lemma_frames_available_fewer(self, n: nat, m: nat)
        requires
            self.frames_available(n),
            m <= n,
        ensures
            self.frames_available(m),
        decreases n,
    {
        if m > 0 && m < n {
            assert forall|p: u64, b: PhysicalAllocator| #[trigger] self.allocated_from(
                PAGE_SIZE as int,
                p,
                b,
            ) implies b.frames_available((m - 1) as nat) by {
                b.lemma_frames_available_fewer((n - 1) as nat, (m - 1) as nat);
            }
        }
    }

    /// A page that a sane allocator hands out was not handed out before; the allocator
    /// stays sane, and what it had handed out stays handed out.
    pub proof fn lemma_fresh_frame(self, p: u64, after: Self)
        requires
            self.sane(),
            self.allocated_from(PAGE_SIZE as int, p, after),
        ensures
            after.sane(),
            after.claimed(p),
            !self.claimed(p),
            forall|f: u64| self.claimed(f) ==> #[trigger] after.claimed(f),
            p % PAGE_SIZE == 0,
            LOW_MEMORY_LIMIT <= p,
            p + PAGE_SIZE <= MAX_BOOT_PHYS,
    {
        let size = PAGE_SIZE as int;
        let i = choose|i: int|
            self.current <= i < self.regions@.len() && #[trigger] self.fits_at(i, size)
                && self.reaches(i, size) && p == round_up(self.base_at(i) as int, PAGE_SIZE as int)
                && after.current == i && after.next == p + size && after.regions == self.regions;
        let b = self.base_at(i) as int;
        lemma_round_up_page(b);
        let rs = self.regions@;
        assert(rs[i].start <= p < rs[i].end);
        assert(region_holds(rs[i], p));
        if self.claimed(p) {
            if exists|j: int| 0 <= j < self.current && #[trigger] region_holds(rs[j], p) {
                let j = choose|j: int| 0 <= j < self.current && #[trigger] region_holds(rs[j], p);
                assert(rs[i].end <= rs[j].start || rs[j].end <= rs[i].start);
            } else {
                if i != self.current {
                    assert(rs[i].end <= rs[self.current as int].start || rs[self.current as int].end
                        <= rs[i].start);
                }
            }
        }
        assert forall|f: u64| self.claimed(f) implies #[trigger] after.claimed(f) by {
            if exists|j: int| 0 <= j < self.current && #[trigger] region_holds(rs[j], f) {
                let j = choose|j: int| 0 <= j < self.current && #[trigger] region_holds(rs[j], f);
                assert(region_holds(after.regions@[j], f));
            } else if self.current < i {
                assert(region_holds(after.regions@[self.current as int], f));
            }
        }
    }

    /// Two successive `alloc_frame` calls (each described by `allocated_from`) over a
    /// memory map sorted by address hand out increasing pages: the second page `q`
    /// lies at least a page above the first `p`, is page aligned, ends below
    /// `MAX_BOOT_PHYS`, and had not been handed out before, so no page comes out twice.
    pub proof fn law_pages_increase(self, p: u64, mid: Self, q: u64, after: Self)
        requires
            self.sane(),
            forall|i: int, j: int|
                0 <= i < j < self.regions@.len() ==> #[trigger] self.regions@[i].end
                    <= #[trigger] self.regions@[j].start,
            self.allocated_from(PAGE_SIZE as int, p, mid),
            mid.allocated_from(PAGE_SIZE as int, q, after),
        ensures
            q >= p + PAGE_SIZE,
            q % PAGE_SIZE == 0,
            q + PAGE_SIZE <= MAX_BOOT_PHYS,
            !mid.claimed(q),
            !self.claimed(q),
            after.claimed(p) && after.claimed(q),
    {
        self.lemma_fresh_frame(p, mid);
        mid.lemma_fresh_frame(q, after);
        let size = PAGE_SIZE as int;
        let k = choose|k: int|
            mid.current <= k < mid.regions@.len() && #[trigger] mid.fits_at(k, size)
                && mid.reaches(k, size) && q == round_up(mid.base_at(k) as int, PAGE_SIZE as int)
                && after.current == k && after.next == q + size && after.regions == mid.regions;
        let i = choose|i: int|
            self.current <= i < self.regions@.len() && #[trigger] self.fits_at(i, size)
                && self.reaches(i, size) && p == round_up(self.base_at(i) as int, PAGE_SIZE as int)
                && mid.current == i && mid.next == p + size && mid.regions == self.regions;
        lemma_round_up_page(mid.base_at(k) as int);
        if k != i {
            assert(self.regions@[i].end <= self.regions@[k].start);
        }
    }

    proof fn lemma_allocated_at(self, i: int, size: int, p: u64, after: Self)
        requires
            self.current <= i < self.regions@.len(),
            self.fits_at(i, size),
            self.reaches(i, size),
            p == round_up(self.base_at(i) as int, PAGE_SIZE as int),
            after.current == i,
            after.next == p + size,
            after.regions == self.regions,
        ensures
            self.allocated_from(size, p, after),
    {
    }

    proof fn lemma_overflow_at(self, i: int, size: int)
        requires
            self.current <= i < self.regions@.len(),
            spec_early_usable(self.regions@[i].kind),
            self.reaches(i, size),
            self.base_at(i) + PAGE_SIZE > u64::MAX,
        ensures
            !self.no_overflow(size),
    {
    }

    proof fn lemma_scan_exhausted(self, last: int, size: int)
        requires
            self.current <= last,
            last + 1 >= self.regions@.len(),
            self.reaches(last, size),
            !self.fits_at(last, size),
        ensures
            !self.can_alloc(size),
    {
        assert forall|i: int| self.current <= i < self.regions@.len() implies !#[trigger] self.fits_at(
            i,
            size,
        ) by {
            if i < last {
                assert(!self.fits_at(i, size));
            }
        }
    }

    fn alloc_bytes(&mut self, size: u64) -> (p: u64)
        requires
            old(self).can_alloc(size as int),
            old(self).no_overflow(size as int),
        ensures
            old(self).allocated_from(size as int, p, *final(self)),
    {
        let ghost start = *self;
        loop
            invariant
                start == *old(self),
                self.regions == start.regions,
                start.current <= self.current < self.regions@.len(),
                start.reaches(self.current as int, size as int),
                start.can_alloc(size as int),
                start.no_overflow(size as int),
                spec_early_usable(self.regions@[self.current as int].kind) ==> self.next
                    == start.base_at(self.current as int),
            decreases self.regions@.len() - self.current,
        {
            let r = self.regions[self.current];
            if early_usable(r.kind) {
                assert(start.no_overflow(size as int));
                assert(spec_early_usable(start.regions@[self.current as int].kind));
                self.next = align_up(self.next);
                let end = if r.end <= MAX_BOOT_PHYS { r.end } else { MAX_BOOT_PHYS };
                if self.next + size <= end {
                    let p = self.next;
                    self.next = self.next + size;
                    assert(start.fits_at(self.current as int, size as int));
                    assert(p == round_up(start.base_at(self.current as int) as int, PAGE_SIZE as int));
                    assert(self.regions == start.regions);
                    assert(self.next == p + size);
                    assert(start.allocated_from(size as int, p, *self));
                    return p;
                }
            }
            assert(!start.fits_at(self.current as int, size as int));
            if self.current + 1 >= self.regions.len() {
                assert(false);
            }
            self.current = self.current + 1;
            let r = self.regions[self.current];
            if early_usable(r.kind) {
                self.next = if r.start >= LOW_MEMORY_LIMIT { r.start } else { LOW_MEMORY_LIMIT };
            }
        }
    }
}

} // verus!
