use vstd::prelude::*;
use crate::shared::{early_usable, lemma_round_up_page, spec_early_usable, MemoryRegion, PAGE_SIZE};
use crate::memory::phys_frame_bump_alloc::PhysicalFrameBumpAllocator;

verus! {

/// Frame `f` is marked used in the bitmap: bit `f % 8` of byte `f / 8`.
pub open spec fn frame_used(bmp: Seq<u8>, f: int) -> bool {
    (bmp[f / 8] >> ((f % 8) as u8)) & 1u8 == 1u8
}

/// `after` differs from `before` at most in frame `f`, which is now `used`.
pub open spec fn bitmap_updated(before: Seq<u8>, after: Seq<u8>, f: int, used: bool) -> bool {
    &&& after.len() == before.len()
    &&& frame_used(after, f) == used
    &&& forall|g: int|
        0 <= g < 8 * after.len() && g != f ==> #[trigger] frame_used(after, g) == frame_used(
            before,
            g,
        )
}

proof fn lemma_byte_set(b: u8, k: u8, j: u8)
    requires
        k < 8,
        j < 8,
    ensures
        ((b | (1u8 << k)) >> j) & 1u8 == (if j == k { 1u8 } else { (b >> j) & 1u8 }),
{
    assert(((b | (1u8 << k)) >> j) & 1u8 == (if j == k { 1u8 } else { (b >> j) & 1u8 }))
        by (bit_vector)
        requires
            k < 8,
            j < 8,
    ;
}

proof fn lemma_byte_clear(b: u8, k: u8, j: u8)
    requires
        k < 8,
        j < 8,
    ensures
        ((b & !(1u8 << k)) >> j) & 1u8 == (if j == k { 0u8 } else { (b >> j) & 1u8 }),
{
    assert(((b & !(1u8 << k)) >> j) & 1u8 == (if j == k { 0u8 } else { (b >> j) & 1u8 }))
        by (bit_vector)
        requires
            k < 8,
            j < 8,
    ;
}

proof fn lemma_byte_test(b: u8, k: u8)
    requires
        k < 8,
    ensures
        (b & (1u8 << k) != 0u8) == ((b >> k) & 1u8 == 1u8),
{
    assert((b & (1u8 << k) != 0u8) == ((b >> k) & 1u8 == 1u8)) by (bit_vector)
        requires
            k < 8,
    ;
}

proof fn lemma_other_frames(before: Seq<u8>, after: Seq<u8>, byte: int, f: int)
    requires
        0 <= byte < before.len(),
        after == before.update(byte, after[byte]),
        0 <= f < 8 * before.len(),
        f / 8 != byte,
    ensures
        frame_used(after, f) == frame_used(before, f),
{
}

pub fn set_bit(bitmap: &mut [u8], frame: u64)
    requires
        frame < 8 * old(bitmap)@.len(),
    ensures
        bitmap_updated(old(bitmap)@, final(bitmap)@, frame as int, true),
{
    let byte = (frame / 8) as usize;
    let bit = (frame % 8) as u8;
    let b = bitmap[byte];
    bitmap[byte] = b | (1u8 << bit);
    proof {
        lemma_byte_set(b, bit, bit);
        assert forall|g: int| 0 <= g < 8 * bitmap@.len() && g != frame implies #[trigger] frame_used(
            bitmap@,
            g,
        ) == frame_used(old(bitmap)@, g) by {
            if g / 8 == byte as int {
                lemma_byte_set(b, bit, (g % 8) as u8);
            } else {
                lemma_other_frames(old(bitmap)@, bitmap@, byte as int, g);
            }
        }
    }
}

pub fn clear_bit(bitmap: &mut [u8], frame: u64)
    requires
        frame < 8 * old(bitmap)@.len(),
    ensures
        bitmap_updated(old(bitmap)@, final(bitmap)@, frame as int, false),
{
    let byte = (frame / 8) as usize;
    let bit = (frame % 8) as u8;
    let b = bitmap[byte];
    bitmap[byte] = b & !(1u8 << bit);
    proof {
        lemma_byte_clear(b, bit, bit);
        assert forall|g: int| 0 <= g < 8 * bitmap@.len() && g != frame implies #[trigger] frame_used(
            bitmap@,
            g,
        ) == frame_used(old(bitmap)@, g) by {
            if g / 8 == byte as int {
                lemma_byte_clear(b, bit, (g % 8) as u8);
            } else {
                lemma_other_frames(old(bitmap)@, bitmap@, byte as int, g);
            }
        }
    }
}

pub fn test_bit(bitmap: &[u8], frame: u64) -> (r: bool)
    requires
        frame < 8 * bitmap@.len(),
    ensures
        r == frame_used(bitmap@, frame as int),
{
    let byte = (frame / 8) as usize;
    let bit = (frame % 8) as u8;
    proof {
        lemma_byte_test(bitmap@[byte as int], bit);
    }
    bitmap[byte] & (1u8 << bit) != 0
}


/// Number of frames below `m` that the bitmap marks free.
pub open spec fn clear_count(bmp: Seq<u8>, m: int) -> int
    decreases m,
{
    if m <= 0 {
        0
    } else {
        clear_count(bmp, m - 1) + (if frame_used(bmp, m - 1) { 0int } else { 1int })
    }
}

proof fn lemma_clear_count_bounds(bmp: Seq<u8>, m: int)
    requires
        0 <= m,
    ensures
        0 <= clear_count(bmp, m) <= m,
    decreases m,
{
    if m > 0 {
        lemma_clear_count_bounds(bmp, m - 1);
    }
}

proof fn lemma_clear_count_none(bmp: Seq<u8>, m: int)
    requires
        0 <= m,
        forall|f: int| 0 <= f < m ==> #[trigger] frame_used(bmp, f),
    ensures
        clear_count(bmp, m) == 0,
    decreases m,
{
    if m > 0 {
        lemma_clear_count_none(bmp, m - 1);
    }
}

/// A bitmap free wherever another is free, below `m`, counts no more free frames there.
proof fn lemma_clear_count_le(b: Seq<u8>, h: Seq<u8>, m: int)
    requires
        0 <= m,
        forall|f: int| 0 <= f < m && !#[trigger] frame_used(b, f) ==> !frame_used(h, f),
    ensures
        clear_count(b, m) <= clear_count(h, m),
    decreases m,
{
    if m > 0 {
        lemma_clear_count_le(b, h, m - 1);
        assert(frame_used(b, m - 1) == frame_used(b, m - 1));
    }
}

/// Turning the frames `lo..hi`, all in the opposite state, to `used` moves the count
/// of free frames below `m` by the number of them below `m`.
proof fn lemma_clear_count_range(b0: Seq<u8>, b1: Seq<u8>, lo: int, hi: int, used: bool, m: int)
    requires
        0 <= lo <= hi,
        0 <= m,
        forall|f: int|
            0 <= f < m && !(lo <= f < hi) ==> #[trigger] frame_used(b1, f) == frame_used(b0, f),
        forall|f: int|
            lo <= f < hi && f < m ==> #[trigger] frame_used(b1, f) == used && frame_used(b0, f)
                == !used,
    ensures
        ({
            let k = if m <= lo {
                0
            } else if m <= hi {
                m - lo
            } else {
                hi - lo
            };
            clear_count(b1, m) == if used {
                clear_count(b0, m) - k
            } else {
                clear_count(b0, m) + k
            }
        }),
    decreases m,
{
    if m > 0 {
        lemma_clear_count_range(b0, b1, lo, hi, used, m - 1);
        assert(frame_used(b1, m - 1) == frame_used(b1, m - 1));
        assert(frame_used(b0, m - 1) == frame_used(b0, m - 1));
    }
}

/// First whole frame of a region.
pub open spec fn frame_lo(r: MemoryRegion) -> int {
    (r.start + PAGE_SIZE - 1) / PAGE_SIZE as int
}

/// One past the last whole frame of a region.
pub open spec fn frame_hi(r: MemoryRegion) -> int {
    r.end as int / PAGE_SIZE as int
}

/// Frame `f` lies in a usable region among the first `n`.
pub open spec fn covered(regions: Seq<MemoryRegion>, n: int, f: int) -> bool {
    exists|j: int|
        0 <= j < n && spec_early_usable((#[trigger] regions[j]).kind) && frame_lo(regions[j]) <= f
            < frame_hi(regions[j])
}

/// Number of whole frames in the usable regions among the first `n`.
pub open spec fn usable_frame_count(regions: Seq<MemoryRegion>, n: int) -> int
    decreases n,
{
    if n <= 0 {
        0
    } else {
        usable_frame_count(regions, n - 1) + (if spec_early_usable(regions[n - 1].kind) {
            frame_hi(regions[n - 1]) - frame_lo(regions[n - 1])
        } else {
            0
        })
    }
}

/// The highest frame end among the usable regions among the first `n`, or 0.
pub open spec fn max_frame_hi(regions: Seq<MemoryRegion>, n: int) -> int
    decreases n,
{
    if n <= 0 {
        0
    } else {
        let m = max_frame_hi(regions, n - 1);
        if spec_early_usable(regions[n - 1].kind) && frame_hi(regions[n - 1]) > m {
            frame_hi(regions[n - 1])
        } else {
            m
        }
    }
}

/// The highest end address among the usable regions among the first `n`, or 0.
pub open spec fn max_usable_end(regions: Seq<MemoryRegion>, n: int) -> int
    decreases n,
{
    if n <= 0 {
        0
    } else {
        let m = max_usable_end(regions, n - 1);
        if spec_early_usable(regions[n - 1].kind) && regions[n - 1].end > m {
            regions[n - 1].end as int
        } else {
            m
        }
    }
}

/// Every usable region holds a non-negative number of whole frames.
pub open spec fn regions_well_formed(regions: Seq<MemoryRegion>) -> bool {
    forall|j: int|
        0 <= j < regions.len() && spec_early_usable((#[trigger] regions[j]).kind) ==> regions[j].start
            + PAGE_SIZE <= u64::MAX && frame_lo(regions[j]) <= frame_hi(regions[j])
}

/// The two regions share no whole frame.
pub open spec fn frames_apart(a: MemoryRegion, b: MemoryRegion) -> bool {
    frame_hi(a) <= frame_lo(b) || frame_hi(b) <= frame_lo(a) || frame_hi(a) <= frame_lo(a)
        || frame_hi(b) <= frame_lo(b)
}

/// No two usable regions share a whole frame.
pub open spec fn usable_disjoint(regions: Seq<MemoryRegion>) -> bool {
    forall|i: int, j: int|
        0 <= i < j < regions.len() && spec_early_usable((#[trigger] regions[i]).kind)
            && spec_early_usable((#[trigger] regions[j]).kind) ==> frames_apart(regions[i], regions[j])
}

proof fn lemma_not_covered_earlier(rs: Seq<MemoryRegion>, i: int, f: int)
    requires
        usable_disjoint(rs),
        0 <= i < rs.len(),
        spec_early_usable(rs[i].kind),
        frame_lo(rs[i]) <= f < frame_hi(rs[i]),
    ensures
        !covered(rs, i, f),
{
    if covered(rs, i, f) {
        let j = choose|j: int|
            0 <= j < i && spec_early_usable((#[trigger] rs[j]).kind) && frame_lo(rs[j]) <= f
                < frame_hi(rs[j]);
        assert(frames_apart(rs[j], rs[i]));
    }
}

proof fn lemma_covered_by(rs: Seq<MemoryRegion>, i: int, n: int, f: int)
    requires
        0 <= i < n <= rs.len(),
        spec_early_usable(rs[i].kind),
        frame_lo(rs[i]) <= f < frame_hi(rs[i]),
    ensures
        covered(rs, n, f),
{
    assert(spec_early_usable(rs[i].kind) && frame_lo(rs[i]) <= f < frame_hi(rs[i]));
}

proof fn lemma_count_monotone(regions: Seq<MemoryRegion>, a: int, b: int)
    requires
        regions_well_formed(regions),
        0 <= a <= b <= regions.len(),
    ensures
        0 <= usable_frame_count(regions, a) <= usable_frame_count(regions, b),
    decreases b - a,
{
    if a < b {
        lemma_count_monotone(regions, a, b - 1);
        assert(spec_early_usable(regions[b - 1].kind) ==> frame_lo(regions[b - 1]) <= frame_hi(
            regions[b - 1],
        ));
    } else {
        lemma_count_nonneg(regions, a);
    }
}

proof fn lemma_count_nonneg(regions: Seq<MemoryRegion>, a: int)
    requires
        regions_well_formed(regions),
        0 <= a <= regions.len(),
    ensures
        0 <= usable_frame_count(regions, a),
    decreases a,
{
    if a > 0 {
        lemma_count_nonneg(regions, a - 1);
        assert(spec_early_usable(regions[a - 1].kind) ==> frame_lo(regions[a - 1]) <= frame_hi(
            regions[a - 1],
        ));
    }
}

proof fn lemma_max_end_bounds(regions: Seq<MemoryRegion>, n: int, j: int)
    requires
        0 <= j < n <= regions.len(),
        spec_early_usable(regions[j].kind),
    ensures
        regions[j].end <= max_usable_end(regions, n),
        frame_hi(regions[j]) <= max_frame_hi(regions, n),
    decreases n,
{
    if j < n - 1 {
        lemma_max_end_bounds(regions, n - 1, j);
    }
}

proof fn lemma_max_end_attained(regions: Seq<MemoryRegion>, n: int)
    requires
        0 <= n <= regions.len(),
    ensures
        0 <= max_usable_end(regions, n) <= u64::MAX,
        0 <= max_frame_hi(regions, n) <= max_usable_end(regions, n) / PAGE_SIZE as int,
    decreases n,
{
    if n > 0 {
        lemma_max_end_attained(regions, n - 1);
        let m = max_usable_end(regions, n - 1);
        let e = regions[n - 1].end as int;
        assert(e / 4096 <= m / 4096 || e > m) by (nonlinear_arith)
            requires e <= m || e > m;
        if e > m {
            assert(m / 4096 <= e / 4096) by (nonlinear_arith)
                requires m <= e, m >= 0;
        }
    }
}


/// Bytes of a bitmap with one bit per frame below the highest usable end address.
pub open spec fn spec_bmp_size(regions: Seq<MemoryRegion>) -> int {
    (max_usable_end(regions, regions.len() as int) / PAGE_SIZE as int + 7) / 8
}

/// Pages that hold the bitmap.
pub open spec fn spec_bmp_pages(regions: Seq<MemoryRegion>) -> int {
    (spec_bmp_size(regions) + PAGE_SIZE - 1) / PAGE_SIZE as int
}

/// First frame at or above an address.
pub open spec fn frame_ceil(a: int) -> int {
    (a + PAGE_SIZE - 1) / PAGE_SIZE as int
}

/// What the boot allocator, stopped in region `cur` with cursor `next`, has already
/// handed out within that region: the frames from the region's first to the cursor.
pub open spec fn taken_in_current(regions: Seq<MemoryRegion>, cur: int, next: int, f: int) -> bool {
    spec_early_usable(regions[cur].kind) && frame_lo(regions[cur]) <= f < frame_ceil(next)
}

/// Frames of the current region that the boot allocator has handed out.
pub open spec fn taken_count(regions: Seq<MemoryRegion>, cur: int, next: int) -> int {
    if spec_early_usable(regions[cur].kind) && frame_lo(regions[cur]) < frame_ceil(next) {
        frame_ceil(next) - frame_lo(regions[cur])
    } else {
        0
    }
}

/// Once the boot allocator has placed the bitmap and stopped in region `i` with
/// cursor `next`, the frames it handed out fit the bitmap and its count of free frames.
pub open spec fn handover_ok(regions: Seq<MemoryRegion>, i: int, next: int) -> bool {
    &&& next + PAGE_SIZE <= u64::MAX
    &&& frame_ceil(next) <= 8 * spec_bmp_size(regions)
    &&& taken_count(regions, i, next) <= usable_frame_count(regions, regions.len() as int)
        - usable_frame_count(regions, i)
}

/// The initial bitmap: every frame marked used.
fn all_used_bitmap(len: usize) -> (r: Vec<u8>)
    ensures
        r@.len() == len,
        forall|f: int| 0 <= f < 8 * len ==> #[trigger] frame_used(r@, f),
{
    let mut v: Vec<u8> = Vec::new();
    let mut i: usize = 0;
    while i < len
        invariant
            i <= len,
            v@.len() == i,
            forall|k: int| 0 <= k < i ==> v@[k] == 0xFFu8,
        decreases len - i,
    {
        v.push(0xFFu8);
        i = i + 1;
    }
    proof {
        assert forall|f: int| 0 <= f < 8 * len implies #[trigger] frame_used(v@, f) by {
            let k = (f % 8) as u8;
            assert(v@[f / 8] == 0xFFu8);
            assert((0xFFu8 >> k) & 1u8 == 1u8) by (bit_vector)
                requires
                    k < 8,
            ;
        }
    }
    v
}

/// Marks the frames `lo..hi` used (`used`) or free.
fn mark_frames(bitmap: &mut [u8], lo: u64, hi: u64, used: bool)
    requires
        hi <= 8 * old(bitmap)@.len(),
    ensures
        final(bitmap)@.len() == old(bitmap)@.len(),
        forall|f: int|
            0 <= f < 8 * final(bitmap)@.len() ==> #[trigger] frame_used(final(bitmap)@, f) == (if lo
                <= f < hi {
                used
            } else {
                frame_used(old(bitmap)@, f)
            }),
{
    let ghost orig = bitmap@;
    if lo >= hi {
        return;
    }
    let mut f = lo;
    while f < hi
        invariant
            orig == old(bitmap)@,
            hi <= 8 * bitmap@.len(),
            bitmap@.len() == orig.len(),
            lo <= f <= hi,
            forall|g: int|
                0 <= g < 8 * bitmap@.len() ==> #[trigger] frame_used(bitmap@, g) == (if lo <= g < f {
                    used
                } else {
                    frame_used(orig, g)
                }),
        decreases hi - f,
    {
        let ghost before = bitmap@;
        if used {
            set_bit(bitmap, f);
            assert(frame_used(bitmap@, f as int));
        } else {
            clear_bit(bitmap, f);
            assert(!frame_used(bitmap@, f as int));
        }
        proof {
            assert forall|g: int| 0 <= g < 8 * bitmap@.len() implies #[trigger] frame_used(bitmap@, g) == (if lo <= g < f + 1 {
                used
            } else {
                frame_used(orig, g)
            }) by {
                if g != f {
                    assert(frame_used(bitmap@, g) == frame_used(before, g));
                }
            }
        }
        f = f + 1;
    }
}

fn max_usable_end_of(regions: &[MemoryRegion]) -> (m: u64)
    ensures
        m == max_usable_end(regions@, regions@.len() as int),
{
    let ghost rs = regions@;
    let mut max_addr: u64 = 0;
    let mut i: usize = 0;
    while i < regions.len()
        invariant
            regions@ == rs,
            0 <= i <= rs.len(),
            max_addr == max_usable_end(rs, i as int),
        decreases rs.len() - i,
    {
        proof {
            lemma_max_end_attained(rs, i as int + 1);
        }
        if early_usable(regions[i].kind) && regions[i].end > max_addr {
            max_addr = regions[i].end;
        }
        i = i + 1;
    }
    max_addr
}

/// Marks the frames of every usable region free; returns their count and the
/// highest frame end.
#[verifier::rlimit(40)]
fn clear_usable_frames(bmp: &mut Vec<u8>, regions: &[MemoryRegion]) -> (r: (u64, u64))
    requires
        regions_well_formed(regions@),
        usable_frame_count(regions@, regions@.len() as int) <= u64::MAX,
        usable_disjoint(regions@),
        max_frame_hi(regions@, regions@.len() as int) <= 8 * old(bmp)@.len(),
        forall|f: int| 0 <= f < 8 * old(bmp)@.len() ==> #[trigger] frame_used(old(bmp)@, f),
    ensures
        final(bmp)@.len() == old(bmp)@.len(),
        r.0 == usable_frame_count(regions@, regions@.len() as int),
        clear_count(final(bmp)@, r.1 as int) == r.0,
        r.1 == max_frame_hi(regions@, regions@.len() as int),
        forall|f: int|
            0 <= f < 8 * final(bmp)@.len() ==> #[trigger] frame_used(final(bmp)@, f) == !covered(
                regions@,
                regions@.len() as int,
                f,
            ),
{
    let ghost rs = regions@;
    let ghost n = rs.len() as int;
    let ghost len0 = bmp@.len();
    let ghost m = max_frame_hi(rs, n);
    proof {
        lemma_count_monotone(rs, 0, n);
        lemma_max_end_attained(rs, n);
        lemma_clear_count_none(bmp@, m);
    }
    let mut usable_frames: u64 = 0;
    let mut max_frame: u64 = 0;
    let mut i: usize = 0;
    while i < regions.len()
        invariant
            regions@ == rs,
            n == rs.len(),
            regions_well_formed(rs),
            usable_frame_count(rs, n) <= u64::MAX,
            max_frame_hi(rs, n) <= 8 * len0,
            0 <= i <= n,
            bmp@.len() == len0,
            usable_frames == usable_frame_count(rs, i as int),
            max_frame == max_frame_hi(rs, i as int),
            usable_disjoint(rs),
            m == max_frame_hi(rs, n),
            0 <= m,
            clear_count(bmp@, m) == usable_frames,
            forall|f: int|
                0 <= f < 8 * bmp@.len() ==> #[trigger] frame_used(bmp@, f) == !covered(rs, i as int, f),
        decreases n - i,
    {
        let r = regions[i];
        assert(rs[i as int] == r);
        proof {
            lemma_count_monotone(rs, i as int + 1, n);
        }
        let ghost before = bmp@;
        if early_usable(r.kind) {
            let start = (r.start + PAGE_SIZE - 1) / PAGE_SIZE;
            let end = r.end / PAGE_SIZE;
            proof {
                lemma_max_end_bounds(rs, n, i as int);
            }
            usable_frames = usable_frames + (end - start);
            mark_frames(bmp.as_mut_slice(), start, end, false);
            proof {
                assert forall|f: int| start <= f < end && f < m implies #[trigger] frame_used(bmp@, f)
                    == false && frame_used(before, f) == true by {
                    lemma_not_covered_earlier(rs, i as int, f);
                }
                lemma_clear_count_range(before, bmp@, start as int, end as int, false, m);
            }
            if end > max_frame {
                max_frame = end;
            }
        }
        proof {
            assert forall|f: int| 0 <= f < 8 * bmp@.len() implies #[trigger] frame_used(bmp@, f)
                == !covered(rs, i as int + 1, f) by {
                lemma_covered_step(rs, i as int, f);
            }
        }
        i = i + 1;
    }
    (usable_frames, max_frame)
}

proof fn lemma_covered_step(rs: Seq<MemoryRegion>, i: int, f: int)
    requires
        0 <= i < rs.len(),
    ensures
        covered(rs, i + 1, f) == (covered(rs, i, f) || (spec_early_usable(rs[i].kind) && frame_lo(
            rs[i],
        ) <= f < frame_hi(rs[i]))),
{
    if covered(rs, i + 1, f) {
        let j = choose|j: int|
            0 <= j < i + 1 && spec_early_usable((#[trigger] rs[j]).kind) && frame_lo(rs[j]) <= f
                < frame_hi(rs[j]);
        if j < i {
            assert(covered(rs, i, f));
        }
    }
    if covered(rs, i, f) {
        let j = choose|j: int|
            0 <= j < i && spec_early_usable((#[trigger] rs[j]).kind) && frame_lo(rs[j]) <= f
                < frame_hi(rs[j]);
        assert(covered(rs, i + 1, f));
    }
    if spec_early_usable(rs[i].kind) && frame_lo(rs[i]) <= f < frame_hi(rs[i]) {
        assert(covered(rs, i + 1, f));
    }
}

proof fn lemma_covered_within(rs: Seq<MemoryRegion>, i: int, n: int, f: int)
    requires
        0 <= i <= n <= rs.len(),
        covered(rs, i, f),
    ensures
        covered(rs, n, f),
{
    let j = choose|j: int|
        0 <= j < i && spec_early_usable((#[trigger] rs[j]).kind) && frame_lo(rs[j]) <= f < frame_hi(
            rs[j],
        );
    assert(covered(rs, n, f));
}

/// Marks used again the frames of the usable regions before `cur`, which the boot
/// allocator has handed out; returns the remaining free count.
#[verifier::rlimit(40)]
fn reset_handed_out(bmp: &mut Vec<u8>, regions: &[MemoryRegion], cur: usize, usable: u64) -> (free: u64)
    requires
        regions_well_formed(regions@),
        cur < regions@.len(),
        usable_disjoint(regions@),
        usable == usable_frame_count(regions@, regions@.len() as int),
        clear_count(old(bmp)@, max_frame_hi(regions@, regions@.len() as int)) == usable,
        max_frame_hi(regions@, regions@.len() as int) <= 8 * old(bmp)@.len(),
        forall|f: int|
            0 <= f < 8 * old(bmp)@.len() ==> #[trigger] frame_used(old(bmp)@, f) == !covered(
                regions@,
                regions@.len() as int,
                f,
            ),
    ensures
        final(bmp)@.len() == old(bmp)@.len(),
        free == usable - usable_frame_count(regions@, cur as int),
        clear_count(final(bmp)@, max_frame_hi(regions@, regions@.len() as int)) == free,
        forall|f: int|
            0 <= f < 8 * final(bmp)@.len() ==> #[trigger] frame_used(final(bmp)@, f) == (!covered(
                regions@,
                regions@.len() as int,
                f,
            ) || covered(regions@, cur as int, f)),
{
    let ghost rs = regions@;
    let ghost n = rs.len() as int;
    let ghost len0 = bmp@.len();
    let ghost m = max_frame_hi(rs, n);
    proof {
        lemma_max_end_attained(rs, n);
    }
    let mut free_frames = usable;
    let mut i: usize = 0;
    while i < cur
        invariant
            regions@ == rs,
            n == rs.len(),
            regions_well_formed(rs),
            cur < n,
            0 <= i <= cur,
            bmp@.len() == len0,
            max_frame_hi(rs, n) <= 8 * len0,
            usable == usable_frame_count(rs, n),
            free_frames == usable_frame_count(rs, n) - usable_frame_count(rs, i as int),
            usable_disjoint(rs),
            m == max_frame_hi(rs, n),
            0 <= m,
            clear_count(bmp@, m) == free_frames,
            forall|f: int|
                0 <= f < 8 * bmp@.len() ==> #[trigger] frame_used(bmp@, f) == (!covered(rs, n, f)
                    || covered(rs, i as int, f)),
        decreases cur - i,
    {
        let r = regions[i];
        assert(rs[i as int] == r);
        proof {
            lemma_count_monotone(rs, i as int + 1, n);
        }
        let ghost before = bmp@;
        if early_usable(r.kind) {
            let start = (r.start + PAGE_SIZE - 1) / PAGE_SIZE;
            let end = r.end / PAGE_SIZE;
            proof {
                lemma_max_end_bounds(rs, n, i as int);
            }
            free_frames = free_frames - (end - start);
            mark_frames(bmp.as_mut_slice(), start, end, true);
            proof {
                assert forall|f: int| start <= f < end && f < m implies #[trigger] frame_used(bmp@, f)
                    == true && frame_used(before, f) == false by {
                    lemma_not_covered_earlier(rs, i as int, f);
                    lemma_covered_by(rs, i as int, n, f);
                }
                lemma_clear_count_range(before, bmp@, start as int, end as int, true, m);
            }
        }
        proof {
            assert forall|f: int| 0 <= f < 8 * bmp@.len() implies #[trigger] frame_used(bmp@, f)
                == (!covered(rs, n, f) || covered(rs, i as int + 1, f)) by {
                lemma_covered_step(rs, i as int, f);
                if covered(rs, i as int + 1, f) {
                    lemma_covered_within(rs, i as int + 1, n, f);
                }
            }
        }
        i = i + 1;
    }
    free_frames
}

/// A cursor `pages` whole pages past a page-aligned base, still inside the region,
/// stops at or before the region's last whole frame.
proof fn lemma_cursor_in_region(r: MemoryRegion, base: int, pages: int, next: int)
    requires
        base % PAGE_SIZE as int == 0,
        base >= 0,
        pages >= 0,
        next == base + pages * PAGE_SIZE,
        next <= r.end,
    ensures
        frame_ceil(next) <= frame_hi(r),
{
    let e = r.end as int;
    assert(next % 4096 == 0) by (nonlinear_arith)
        requires
            base % 4096 == 0,
            next == base + pages * 4096,
    ;
    assert((next + 4095) / 4096 == next / 4096) by (nonlinear_arith)
        requires
            next % 4096 == 0,
            next >= 0,
    ;
    assert(next / 4096 <= e / 4096) by (nonlinear_arith)
        requires
            0 <= next <= e,
    ;
}

/// A physical frame allocator with one bit per 4 KiB frame (set: in use).
pub struct BitmapFrameAllocator {
    bmp: Vec<u8>,
    usable_frames: u64,
    free_frames: u64,
    next_free_frame: u64,
    max_frame: u64,
    /// The bitmap as built from the memory map, before any frame was taken: its
    /// clear bits are the frames the allocator manages.
    home: Ghost<Seq<u8>>,
}

impl BitmapFrameAllocator {
    pub closed spec fn bitmap(&self) -> Seq<u8> {
        self.bmp@
    }

    pub closed spec fn spec_usable_frames(&self) -> u64 {
        self.usable_frames
    }

    pub closed spec fn spec_free_frames(&self) -> u64 {
        self.free_frames
    }

    pub closed spec fn spec_next_free_frame(&self) -> u64 {
        self.next_free_frame
    }

    pub closed spec fn spec_max_frame(&self) -> u64 {
        self.max_frame
    }

    /// Frame `f` lies in usable memory that the allocator manages, in use or not.
    pub closed spec fn manages(&self, f: int) -> bool {
        0 <= f < self.max_frame && !frame_used(self.home@, f)
    }

    /// Frame `f` is one the allocator manages and it is not in use.
    pub open spec fn is_free(&self, f: int) -> bool {
        0 <= f < self.spec_max_frame() && !frame_used(self.bitmap(), f)
    }

    /// The bitmap covers every managed frame, and the free counter is the number of
    /// managed frames that the bitmap marks free.
    pub closed spec fn wf(&self) -> bool {
        &&& self.max_frame <= 8 * self.bmp@.len()
        &&& clear_count(self.bmp@, self.max_frame as int) == self.free_frames
        &&& clear_count(self.home@, self.max_frame as int) == self.usable_frames
        &&& forall|f: int|
            0 <= f < self.max_frame && !#[trigger] frame_used(self.bmp@, f) ==> !frame_used(self.home@, f)
    }

    /// Builds the bitmap for all usable memory of the boot memory map: frames in
    /// usable regions are free, except those the boot allocator has handed out
    /// (the usable regions before its current one, and its current one up to its
    /// cursor). The bitmap's own pages are taken from the boot allocator first.
    pub fn new(bootstrap_alloc: &mut PhysicalFrameBumpAllocator) -> (r: Self)
        requires
            regions_well_formed(old(bootstrap_alloc).regions@),
            usable_disjoint(old(bootstrap_alloc).regions@),
            exists|j: int|
                0 <= j < old(bootstrap_alloc).regions@.len() && spec_early_usable(
                    (#[trigger] old(bootstrap_alloc).regions@[j]).kind,
                ),
            spec_bmp_size(old(bootstrap_alloc).regions@) <= usize::MAX,
            spec_bmp_pages(old(bootstrap_alloc).regions@) * PAGE_SIZE <= usize::MAX,
            usable_frame_count(old(bootstrap_alloc).regions@, old(bootstrap_alloc).regions@.len() as int)
                <= u64::MAX,
            old(bootstrap_alloc).can_alloc_frames(spec_bmp_pages(old(bootstrap_alloc).regions@) * PAGE_SIZE),
            old(bootstrap_alloc).frames_no_overflow(spec_bmp_pages(old(bootstrap_alloc).regions@) * PAGE_SIZE),
            forall|i: int|
                old(bootstrap_alloc).current <= i < old(bootstrap_alloc).regions@.len()
                    && #[trigger] old(bootstrap_alloc).frames_fit(
                    i,
                    spec_bmp_pages(old(bootstrap_alloc).regions@) * PAGE_SIZE,
                ) && old(bootstrap_alloc).frames_reach(
                    i,
                    spec_bmp_pages(old(bootstrap_alloc).regions@) * PAGE_SIZE,
                ) ==> handover_ok(
                    old(bootstrap_alloc).regions@,
                    i,
                    old(bootstrap_alloc).frames_base(i) + spec_bmp_pages(
                        old(bootstrap_alloc).regions@,
                    ) * PAGE_SIZE,
                ),
        ensures
            r.wf(),
            final(bootstrap_alloc).regions == old(bootstrap_alloc).regions,
            exists|i: int|
                old(bootstrap_alloc).current <= i < old(bootstrap_alloc).regions@.len()
                    && #[trigger] old(bootstrap_alloc).frames_fit(
                    i,
                    spec_bmp_pages(old(bootstrap_alloc).regions@) * PAGE_SIZE,
                ) && old(bootstrap_alloc).frames_reach(
                    i,
                    spec_bmp_pages(old(bootstrap_alloc).regions@) * PAGE_SIZE,
                ) && final(bootstrap_alloc).current == i && final(bootstrap_alloc).next
                    == old(bootstrap_alloc).frames_base(i) + spec_bmp_pages(
                    old(bootstrap_alloc).regions@,
                ) * PAGE_SIZE,
            ({
                let regions = old(bootstrap_alloc).regions@;
                let n = regions.len() as int;
                let cur = final(bootstrap_alloc).current as int;
                let next = final(bootstrap_alloc).next as int;
                &&& r.bitmap().len() == spec_bmp_size(regions)
                &&& forall|f: int|
                    0 <= f < 8 * r.bitmap().len() ==> #[trigger] frame_used(r.bitmap(), f) == (
                    !covered(regions, n, f) || covered(regions, cur, f) || taken_in_current(
                        regions,
                        cur,
                        next,
                        f,
                    ))
                &&& r.spec_usable_frames() == usable_frame_count(regions, n)
                &&& r.spec_free_frames() == usable_frame_count(regions, n) - usable_frame_count(
                    regions,
                    cur,
                ) - taken_count(regions, cur, next)
                &&& r.spec_max_frame() == max_frame_hi(regions, n)
                &&& forall|f: int| #[trigger] r.manages(f) == (0 <= f < r.spec_max_frame() && covered(regions, n, f))
                &&& r.spec_next_free_frame() == (if taken_count(regions, cur, next) > 0 {
                    frame_ceil(next)
                } else {
                    0
                })
            }),
    {
        let regions = bootstrap_alloc.regions;
        let ghost rs = regions@;
        let ghost n = rs.len() as int;
        let max_addr = max_usable_end_of(regions);
        let bmp_size = ((max_addr / PAGE_SIZE) + 7) / 8;
        let bmp_pages = (bmp_size + PAGE_SIZE - 1) / PAGE_SIZE;
        proof {
            assert(bmp_pages <= usize::MAX) by (nonlinear_arith)
                requires bmp_pages * 4096 <= usize::MAX, bmp_pages >= 0;
        }
        let ghost b0 = *bootstrap_alloc;
        let _phys_addr = bootstrap_alloc.alloc_frames(bmp_pages as usize);
        proof {
            let c = bootstrap_alloc.current as int;
            assert(b0.frames_fit(c, bmp_pages * PAGE_SIZE));
            if c == b0.current as int {
                lemma_round_up_page(b0.next as int);
            } else {
                lemma_round_up_page(rs[c].start as int);
            }
        }
        let mut bmp = all_used_bitmap(bmp_size as usize);
        proof {
            lemma_max_end_attained(rs, n);
            assert(max_frame_hi(rs, n) <= 8 * bmp_size) by (nonlinear_arith)
                requires
                    max_frame_hi(rs, n) <= max_addr / 4096,
                    bmp_size == ((max_addr / 4096) + 7) / 8,
                    max_addr >= 0,
            ;
            lemma_count_monotone(rs, 0, n);
        }
        let (usable_frames, max_frame) = clear_usable_frames(&mut bmp, regions);
        let ghost home = bmp@;
        let cur = bootstrap_alloc.current;
        let mut free_frames = reset_handed_out(&mut bmp, regions, cur, usable_frames);
        let mut next_free_frame: u64 = 0;
        let r = regions[cur];
        let next = bootstrap_alloc.next;
        if early_usable(r.kind) {
            assert(rs[cur as int] == r);
            let start = (r.start + PAGE_SIZE - 1) / PAGE_SIZE;
            let end = (next + PAGE_SIZE - 1) / PAGE_SIZE;
            let ghost before = bmp@;
            mark_frames(bmp.as_mut_slice(), start, end, true);
            proof {
                lemma_max_end_attained(rs, n);
                lemma_max_end_bounds(rs, n, cur as int);
                lemma_cursor_in_region(rs[cur as int], _phys_addr as int, bmp_pages as int, next as int);
                let hi = if start < end { end as int } else { start as int };
                assert forall|f: int| start <= f < hi && f < max_frame implies #[trigger] frame_used(bmp@, f)
                    == true && frame_used(before, f) == false by {
                    lemma_not_covered_earlier(rs, cur as int, f);
                    lemma_covered_by(rs, cur as int, n, f);
                }
                lemma_clear_count_range(before, bmp@, start as int, hi, true, max_frame as int);
            }
            if start < end {
                free_frames = free_frames - (end - start);
                next_free_frame = end;
            }
            proof {
                assert forall|f: int| 0 <= f < 8 * bmp@.len() implies #[trigger] frame_used(bmp@, f) == (
                    !covered(rs, n, f) || covered(rs, cur as int, f) || taken_in_current(rs, cur as int, next as int, f)) by {
                    assert(frame_used(before, f) == (!covered(rs, n, f) || covered(rs, cur as int, f)));
                }
            }
        }
        proof {
            assert forall|f: int|
                0 <= f < max_frame && !#[trigger] frame_used(bmp@, f) implies !frame_used(home, f) by {
                assert(covered(rs, n, f));
            }
        }
        Self { bmp, usable_frames, free_frames, next_free_frame, max_frame, home: Ghost(home) }
    }

    /// The first free frame at or after the search cursor.
    fn find_next_free_frame(&mut self) -> (r: Option<u64>)
        requires
            old(self).wf(),
        ensures
            final(self).wf(),
            final(self).bitmap() == old(self).bitmap(),
            final(self).spec_free_frames() == old(self).spec_free_frames(),
            final(self).spec_usable_frames() == old(self).spec_usable_frames(),
            final(self).spec_max_frame() == old(self).spec_max_frame(),
            match r {
                Some(f) => old(self).spec_next_free_frame() <= f && old(self).is_free(f as int)
                    && (forall|g: int|
                    old(self).spec_next_free_frame() <= g < f ==> !#[trigger] old(self).is_free(g))
                    && final(self).spec_next_free_frame() == f + 1,
                None => (forall|g: int|
                    old(self).spec_next_free_frame() <= g ==> !#[trigger] old(self).is_free(g))
                    && final(self).spec_next_free_frame() == old(self).spec_next_free_frame(),
            },
    {
        let mut frame = self.next_free_frame;
        while frame < self.max_frame
            invariant
                *self == *old(self),
                self.wf(),
                self.next_free_frame <= frame || frame == self.next_free_frame,
                self.next_free_frame <= frame,
                forall|g: int| self.next_free_frame <= g < frame ==> !#[trigger] self.is_free(g),
            decreases self.max_frame - frame,
        {
            if !test_bit(self.bmp.as_slice(), frame) {
                self.next_free_frame = frame + 1;
                return Some(frame);
            }
            frame = frame + 1;
        }
        None
    }

    /// Takes the first free frame at or after the search cursor and marks it used.
    pub fn alloc_frame(&mut self) -> (r: Option<u64>)
        requires
            old(self).wf(),
        ensures
            final(self).wf(),
            final(self).spec_usable_frames() == old(self).spec_usable_frames(),
            final(self).spec_max_frame() == old(self).spec_max_frame(),
            match r {
                Some(f) => old(self).spec_next_free_frame() <= f && old(self).is_free(f as int)
                    && (forall|g: int|
                    old(self).spec_next_free_frame() <= g < f ==> !#[trigger] old(self).is_free(g))
                    && bitmap_updated(old(self).bitmap(), final(self).bitmap(), f as int, true)
                    && final(self).spec_free_frames() == old(self).spec_free_frames() - 1
                    && final(self).spec_next_free_frame() == f + 1,
                None => (forall|g: int|
                    old(self).spec_next_free_frame() <= g ==> !#[trigger] old(self).is_free(g))
                    && final(self).bitmap() == old(self).bitmap() && final(self).spec_free_frames()
                    == old(self).spec_free_frames() && final(self).spec_next_free_frame() == old(
                    self,
                ).spec_next_free_frame(),
            },
    {
        let frame = match self.find_next_free_frame() {
            Some(f) => f,
            None => return None,
        };
        let ghost before = self.bmp@;
        set_bit(self.bmp.as_mut_slice(), frame);
        proof {
            lemma_clear_count_range(before, self.bmp@, frame as int, frame + 1, true, self.max_frame as int);
            lemma_clear_count_bounds(self.bmp@, self.max_frame as int);
        }
        self.free_frames = self.free_frames - 1;
        Some(frame)
    }

    /// Marks an allocated frame free again and moves the search cursor back to it
    /// when it lies below.
    pub fn dealloc_frame(&mut self, frame: u64)
        requires
            old(self).wf(),
            old(self).manages(frame as int),
            frame_used(old(self).bitmap(), frame as int),
        ensures
            final(self).wf(),
            bitmap_updated(old(self).bitmap(), final(self).bitmap(), frame as int, false),
            final(self).spec_free_frames() == old(self).spec_free_frames() + 1,
            final(self).spec_usable_frames() == old(self).spec_usable_frames(),
            final(self).spec_max_frame() == old(self).spec_max_frame(),
            final(self).spec_next_free_frame() == (if frame < old(self).spec_next_free_frame() {
                frame
            } else {
                old(self).spec_next_free_frame()
            }),
    {
        let ghost before = self.bmp@;
        clear_bit(self.bmp.as_mut_slice(), frame);
        proof {
            lemma_clear_count_range(before, self.bmp@, frame as int, frame + 1, false, self.max_frame as int);
            lemma_clear_count_bounds(self.bmp@, self.max_frame as int);
        }
        self.free_frames = self.free_frames + 1;
        if frame < self.next_free_frame {
            self.next_free_frame = frame;
        }
    }

    pub fn get_available_memory(&self) -> (r: u64)
        requires
            self.spec_free_frames() * PAGE_SIZE <= u64::MAX,
        ensures
            r == self.spec_free_frames() * PAGE_SIZE,
    {
        self.free_frames * PAGE_SIZE
    }

    pub fn get_total_memory(&self) -> (r: u64)
        requires
            self.spec_usable_frames() * PAGE_SIZE <= u64::MAX,
        ensures
            r == self.spec_usable_frames() * PAGE_SIZE,
    {
        self.usable_frames * PAGE_SIZE
    }
}

/// Handing out a free frame and then freeing it again leaves every frame's
/// state, and so the number of free frames below any bound, as it was.
pub proof fn law_alloc_then_free(b0: Seq<u8>, b1: Seq<u8>, b2: Seq<u8>, f: int, m: int)
    requires
        0 <= f < 8 * b0.len(),
        0 <= m <= 8 * b0.len(),
        !frame_used(b0, f),
        bitmap_updated(b0, b1, f, true),
        bitmap_updated(b1, b2, f, false),
    ensures
        b2.len() == b0.len(),
        forall|g: int| 0 <= g < 8 * b0.len() ==> #[trigger] frame_used(b2, g) == frame_used(b0, g),
        clear_count(b2, m) == clear_count(b0, m),
{
    assert forall|g: int| 0 <= g < 8 * b0.len() implies #[trigger] frame_used(b2, g) == frame_used(b0, g) by {
        if g != f {
            assert(frame_used(b1, g) == frame_used(b0, g));
        }
    }
    lemma_clear_count_range(b0, b2, f, f, true, m);
}

/// The memory a well-formed bitmap allocator reports as available is one page for
/// each managed frame that its bitmap marks free, and never more than it manages.
pub proof fn law_available_is_free_frames(a: &BitmapFrameAllocator)
    requires
        a.wf(),
    ensures
        a.spec_free_frames() == clear_count(a.bitmap(), a.spec_max_frame() as int),
        a.spec_free_frames() <= a.spec_max_frame(),
{
    lemma_clear_count_bounds(a.bitmap(), a.spec_max_frame() as int);
}

/// A well-formed bitmap allocator never reports more memory available than it
/// manages in all.
pub proof fn law_available_within_total(a: &BitmapFrameAllocator)
    requires
        a.wf(),
    ensures
        a.spec_free_frames() <= a.spec_usable_frames(),
{
    lemma_clear_count_le(a.bitmap(), a.home@, a.spec_max_frame() as int);
}

/// A frame handed out by `alloc_frame` lowers the free count by one, and giving it
/// back with `dealloc_frame` raises it by one again: the count stays equal to the
/// free frames of the bitmap throughout.
pub proof fn law_alloc_dealloc_count(a0: &BitmapFrameAllocator, a1: &BitmapFrameAllocator, a2: &BitmapFrameAllocator, f: int)
    requires
        a0.wf(),
        a1.wf(),
        a2.wf(),
        a1.spec_max_frame() == a0.spec_max_frame(),
        a2.spec_max_frame() == a0.spec_max_frame(),
        0 <= f < a0.spec_max_frame(),
        !frame_used(a0.bitmap(), f),
        bitmap_updated(a0.bitmap(), a1.bitmap(), f, true),
        bitmap_updated(a1.bitmap(), a2.bitmap(), f, false),
    ensures
        a1.spec_free_frames() + 1 == a0.spec_free_frames(),
        a2.spec_free_frames() == a0.spec_free_frames(),
{
    lemma_clear_count_range(a0.bitmap(), a1.bitmap(), f, f + 1, true, a0.spec_max_frame() as int);
    lemma_clear_count_range(a1.bitmap(), a2.bitmap(), f, f + 1, false, a0.spec_max_frame() as int);
}

/// A frame handed out is not handed out again before it is freed: once
/// marked used, no frame that is still free is that frame.
pub proof fn law_no_double_allocation(b0: Seq<u8>, b1: Seq<u8>, f: int, g: int)
    requires
        bitmap_updated(b0, b1, f, true),
        !frame_used(b1, g),
    ensures
        g != f,
{
}

} // verus!
