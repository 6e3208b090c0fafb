use vstd::prelude::*;
use crate::shared::{align_up, round_up, MemoryRegion, MemoryRegionKind, PAGE_SIZE};

verus! {

/// The kernel's bump allocator over the boot memory map, resumed where the
/// loader's allocator stopped.
pub struct PhysicalFrameBumpAllocator {
    pub regions: &'static [MemoryRegion],
    pub current: usize,
    pub next: u64,
}

impl PhysicalFrameBumpAllocator {
    /// Where a single-page scan from `self.current` tries region `i`.
    pub open spec fn frame_base(self, i: int) -> u64 {
        if i == self.current as int {
            self.next
        } else {
            self.regions@[i].start
        }
    }

    pub open spec fn frame_fits(self, i: int) -> bool {
        let r = self.regions@[i];
        r.kind == MemoryRegionKind::Usable && self.frame_base(i) + PAGE_SIZE <= r.end
    }

    pub open spec fn frame_reaches(self, i: int) -> bool {
        forall|j: int| self.current <= j < i ==> !#[trigger] self.frame_fits(j)
    }

    /// Some region from the current one on holds a page at its scan base.
    pub open spec fn can_alloc_frame(self) -> bool {
        exists|i: int| self.current <= i < self.regions@.len() && #[trigger] self.frame_fits(i)
    }

    pub open spec fn frame_no_overflow(self) -> bool {
        forall|i: int|
            self.current <= i < self.regions@.len() && (#[trigger] self.regions@[i]).kind
                == MemoryRegionKind::Usable && self.frame_reaches(i) ==> self.frame_base(i)
                + PAGE_SIZE <= u64::MAX
    }

    /// Where a multi-page scan from `self.current` tries region `i`, page aligned.
    pub open spec fn frames_base(self, i: int) -> int {
        if i == self.current as int {
            round_up(self.next as int, PAGE_SIZE as int)
        } else {
            round_up(self.regions@[i].start as int, PAGE_SIZE as int)
        }
    }

    pub open spec fn frames_fit(self, i: int, size: int) -> bool {
        let r = self.regions@[i];
        r.kind == MemoryRegionKind::Usable && self.frames_base(i) + size <= r.end
    }

    pub open spec fn frames_reach(self, i: int, size: int) -> bool {
        forall|j: int| self.current <= j < i ==> !#[trigger] self.frames_fit(j, size)
    }

    pub open spec fn can_alloc_frames(self, size: int) -> bool {
        exists|i: int| self.current <= i < self.regions@.len() && #[trigger] self.frames_fit(i, size)
    }

    /// Rounding the scan base of every reached region, and adding `size` to it,
    /// stays in the 64-bit range.
    pub open spec fn frames_no_overflow(self, size: int) -> bool {
        &&& self.next + PAGE_SIZE <= u64::MAX
        &&& forall|i: int|
            self.current < i < self.regions@.len() && self.frames_reach(i, size) ==> (
            #[trigger] self.regions@[i]).start + PAGE_SIZE <= u64::MAX && self.frames_base(i)
                + PAGE_SIZE <= u64::MAX
        &&& forall|i: int|
            self.current <= i < self.regions@.len() && self.frames_reach(i, size) ==> #[trigger] self.frames_base(i)
                + size <= u64::MAX
    }

    pub fn restore_from(regions: &'static [MemoryRegion], current: usize, next: u64) -> (r: Self)
        ensures
            r.regions == regions,
            r.current == current,
            r.next == next,
    {
        Self { regions, current, next }
    }

    /// Hands out the next page: the first usable region, from the current one on,
    /// with a page between its scan base and its end.
    pub fn alloc_frame(&mut self) -> (p: u64)
        requires
            old(self).can_alloc_frame(),
            old(self).frame_no_overflow(),
        ensures
            exists|i: int|
                old(self).current <= i < old(self).regions@.len() && #[trigger] old(self).frame_fits(i)
                    && old(self).frame_reaches(i) && p == old(self).frame_base(i)
                    && final(self).current == i && final(self).next == p + PAGE_SIZE
                    && final(self).regions == old(self).regions,
    {
        let ghost start = *self;
        loop
            invariant
                start == *old(self),
                self.regions == start.regions,
                start.current <= self.current < self.regions@.len(),
                start.frame_reaches(self.current as int),
                start.can_alloc_frame(),
                start.frame_no_overflow(),
                self.regions@[self.current as int].kind == MemoryRegionKind::Usable ==> self.next
                    == start.frame_base(self.current as int),
            decreases self.regions@.len() - self.current,
        {
            let region = self.regions[self.current];
            if region.kind == MemoryRegionKind::Usable && self.next + PAGE_SIZE <= region.end {
                let p = self.next;
                self.next = self.next + PAGE_SIZE;
                assert(start.frame_fits(self.current as int));
                return p;
            }
            assert(!start.frame_fits(self.current as int));
            if self.current + 1 >= self.regions.len() {
                assert(false);
            }
            self.current = self.current + 1;
            if self.regions[self.current].kind == MemoryRegionKind::Usable {
                self.next = self.regions[self.current].start;
            }
        }
    }

    /// Hands out `num_pages` contiguous pages at a page-aligned address.
    pub fn alloc_frames(&mut self, num_pages: usize) -> (p: u64)
        requires
            num_pages * PAGE_SIZE <= u64::MAX,
            old(self).can_alloc_frames(num_pages * PAGE_SIZE),
            old(self).frames_no_overflow(num_pages * PAGE_SIZE),
        ensures
            exists|i: int|
                old(self).current <= i < old(self).regions@.len() && #[trigger] old(self).frames_fit(
                    i,
                    num_pages * PAGE_SIZE,
                ) && old(self).frames_reach(i, num_pages * PAGE_SIZE) && p == old(
                    self,
                ).frames_base(i) && final(self).current == i && final(self).next == p + num_pages
                    * PAGE_SIZE && final(self).regions == old(self).regions,
    {
        let size = (num_pages as u64) * PAGE_SIZE;
        let ghost start = *self;
        loop
            invariant
                start == *old(self),
                size == num_pages * PAGE_SIZE,
                self.regions == start.regions,
                start.current <= self.current < self.regions@.len(),
                start.frames_reach(self.current as int, size as int),
                start.can_alloc_frames(size as int),
                start.frames_no_overflow(size as int),
                self.current == start.current ==> self.next == start.next,
                self.current > start.current ==> self.next == round_up(
                    self.regions@[self.current as int].start as int,
                    PAGE_SIZE as int,
                ),
            decreases self.regions@.len() - self.current,
        {
            let region = self.regions[self.current];
            proof {
                if self.current > start.current {
                    assert(self.next + PAGE_SIZE <= u64::MAX) by {
                        assert(start.frames_base(self.current as int) + PAGE_SIZE <= u64::MAX);
                        assert(self.next as int % PAGE_SIZE as int == 0) by (nonlinear_arith)
                            requires self.next == ((region.start + 4095) / 4096) * 4096;
                        assert(round_up(self.next as int, PAGE_SIZE as int) == self.next) by (nonlinear_arith)
                            requires self.next as int % 4096 == 0;
                    }
                    assert(round_up(self.next as int, PAGE_SIZE as int) == start.frames_base(self.current as int)) by {
                        assert(self.next as int % PAGE_SIZE as int == 0) by (nonlinear_arith)
                            requires self.next == ((region.start + 4095) / 4096) * 4096;
                        assert(round_up(self.next as int, PAGE_SIZE as int) == self.next) by (nonlinear_arith)
                            requires self.next as int % 4096 == 0;
                    }
                }
            }
            let next = align_up(self.next);
            assert(next == start.frames_base(self.current as int));
            if region.kind == MemoryRegionKind::Usable && next + size <= region.end {
                let p = next;
                self.next = next + size;
                assert(start.frames_fit(self.current as int, size as int));
                return p;
            }
            assert(!start.frames_fit(self.current as int, size as int));
            if self.current + 1 >= self.regions.len() {
                assert(false);
            }
            self.current = self.current + 1;
            assert(start.frames_reach(self.current as int, size as int));
            self.next = align_up(self.regions[self.current].start);
        }
    }
}

} // verus!
