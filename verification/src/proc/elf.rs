use vstd::prelude::*;
use elf::endian::LittleEndian;
use elf::ElfBytes;
use crate::shared::{align_down, align_up, round_down, round_up, PAGE_SIZE, PROCESS_STACK_PAGES, USER_SPACE_BOTTOM, USER_SPACE_TOP};
use crate::sys::errors::{ElfLoadError, MapElfError};

verus! {

pub const PT_LOAD: u32 = 1;
pub const PF_X: u32 = 1;
pub const PF_W: u32 = 2;

/// The fields of an ELF file header that loading uses.
#[derive(Debug, Clone, Copy, PartialEq, Eq, Structural)]
pub struct ElfHeader {
    pub entry: u64,
    pub phoff: u64,
    pub phentsize: u16,
    pub phnum: u16,
}

/// The fields of a program header that loading uses.
#[derive(Debug, Clone, Copy, PartialEq, Eq, Structural)]
pub struct PhdrInfo {
    pub p_type: u32,
    pub p_offset: u64,
    pub p_vaddr: u64,
    pub p_filesz: u64,
    pub p_memsz: u64,
    pub p_flags: u32,
    pub p_align: u64,
}

/// A loadable segment with the bytes the file holds for it.
#[derive(Debug, Clone)]
pub struct LoadedSegment {
    pub virt_addr: u64,
    pub file_offset: u64,
    pub file_size: u64,
    pub mem_size: u64,
    pub align: u64,
    pub flags: u32,
    pub data: Vec<u8>,
}

/// What loading needs of an ELF image: entry point, program header table and
/// loadable segments.
#[derive(Debug, Clone)]
pub struct ElfLoadInfo {
    pub entry_point: u64,
    pub phoff: u64,
    pub phentsize: u16,
    pub phnum: u16,
    pub segments: Vec<LoadedSegment>,
}

/// The file header and program headers that the `elf` crate reads from an image
/// (little-endian), or the error it gives.
pub uninterp spec fn elf_headers_of(buf: Seq<u8>) -> Result<(ElfHeader, Seq<PhdrInfo>), ElfLoadError>;

/// Reads the file header and the program headers of a little-endian ELF image
/// with `ElfBytes::minimal_parse` and `segments`. Its result is named
/// `elf_headers_of`: a parse error becomes `ParserError`, an image without
/// program headers `PhdrError`; the headers are copied field by field.
#[verifier::external_body]
pub(crate) fn read_elf_headers(buf: &[u8]) -> (r: Result<(ElfHeader, Vec<PhdrInfo>), ElfLoadError>)
    ensures
        match elf_headers_of(buf@) {
            Ok(v) => r is Ok && r->Ok_0.0 == v.0 && r->Ok_0.1@ == v.1,
            Err(e) => r == Err::<(ElfHeader, Vec<PhdrInfo>), ElfLoadError>(e),
        },
{
    let elf = match ElfBytes::<LittleEndian>::minimal_parse(buf) {
        Ok(e) => e,
        Err(_) => return Err(ElfLoadError::ParserError),
    };
    let phdrs = match elf.segments() {
        Some(p) => p,
        None => return Err(ElfLoadError::PhdrError),
    };
    let hs = phdrs.iter().map(|ph| PhdrInfo { p_type: ph.p_type, p_offset: ph.p_offset, p_vaddr: ph.p_vaddr,
        p_filesz: ph.p_filesz, p_memsz: ph.p_memsz, p_flags: ph.p_flags, p_align: ph.p_align }).collect();
    let e = &elf.ehdr;
    Ok((ElfHeader { entry: e.e_entry, phoff: e.e_phoff, phentsize: e.e_phentsize, phnum: e.e_phnum }, hs))
}

/// `x` is zero or a power of two.
pub open spec fn pow2_or_zero(x: u64) -> bool {
    x == 0 || x & ((x - 1) as u64) == 0
}

pub fn is_power_two(x: u64) -> (r: bool)
    ensures
        r == pow2_or_zero(x),
{
    if x == 0 {
        return true;
    }
    (x & (x - 1)) == 0
}

/// Whether a segment's pages are writable and whether they may run code.
pub fn elf_page_access(p_flags: u32) -> (r: (bool, bool))
    ensures
        r == (p_flags & PF_W != 0, p_flags & PF_X != 0),
{
    ((p_flags & PF_W) != 0, (p_flags & PF_X) != 0)
}

/// What loading makes of the program headers from `i` on: a loadable segment
/// must not hold more file than memory bytes, must have a zero or power-of-two
/// alignment, must not wrap around, must lie in user space, and its file bytes
/// must lie in the image; other headers are skipped. `Ok(None)` marks a file
/// range whose end overflows the address width.
pub open spec fn load_segments(buf: Seq<u8>, ps: Seq<PhdrInfo>, i: int) -> Result<Option<Seq<(PhdrInfo, Seq<u8>)>>, ElfLoadError>
    decreases ps.len() - i,
{
    if i >= ps.len() {
        Ok(Some(Seq::empty()))
    } else {
        let ph = ps[i];
        if ph.p_type != PT_LOAD {
            load_segments(buf, ps, i + 1)
        } else if ph.p_memsz < ph.p_filesz {
            Err(ElfLoadError::FileSizeLargerThanMemSize)
        } else if !pow2_or_zero(ph.p_align) {
            Err(ElfLoadError::AlignNotPowerTwo)
        } else if ph.p_vaddr + ph.p_memsz > u64::MAX {
            Err(ElfLoadError::VirtAddrOverflow)
        } else if !(USER_SPACE_BOTTOM <= ph.p_vaddr < USER_SPACE_TOP) || !(USER_SPACE_BOTTOM <= ph.p_vaddr
            + ph.p_memsz - 1 < USER_SPACE_TOP) {
            Err(ElfLoadError::SegmentVirtOutOfBounds)
        } else if ph.p_filesz > 0 && (ph.p_offset as usize) + (ph.p_filesz as usize) > usize::MAX {
            Ok(None)
        } else if ph.p_filesz > 0 && (ph.p_offset as usize) + (ph.p_filesz as usize) > buf.len() {
            Err(ElfLoadError::SegmentFileRangeOutOfBounds)
        } else {
            let data = if ph.p_filesz > 0 {
                buf.subrange((ph.p_offset as usize) as int, (ph.p_offset as usize) + (ph.p_filesz as usize))
            } else {
                Seq::empty()
            };
            match load_segments(buf, ps, i + 1) {
                Ok(Some(rest)) => Ok(Some(seq![(ph, data)] + rest)),
                other => other,
            }
        }
    }
}

/// Some segment holds the address `entry`.
pub open spec fn entry_in_segments(segs: Seq<(PhdrInfo, Seq<u8>)>, entry: u64) -> bool {
    exists|k: int| 0 <= k < segs.len() && (#[trigger] segs[k]).0.p_vaddr <= entry < segs[k].0.p_vaddr + segs[k].0.p_memsz
}

/// `s` is the loaded form of header `ph` with file bytes `d`.
pub open spec fn segment_is(s: LoadedSegment, ph: PhdrInfo, d: Seq<u8>) -> bool {
    &&& s.virt_addr == ph.p_vaddr && s.file_offset == ph.p_offset && s.file_size == ph.p_filesz
    &&& s.mem_size == ph.p_memsz && s.flags == ph.p_flags && s.align == ph.p_align && s.data@ == d
}

/// The load information of an image from its headers.
pub open spec fn load_info_ok(info: ElfLoadInfo, h: ElfHeader, segs: Seq<(PhdrInfo, Seq<u8>)>) -> bool {
    &&& info.entry_point == h.entry && info.phoff == h.phoff
    &&& info.phentsize == h.phentsize && info.phnum == h.phnum
    &&& info.segments@.len() == segs.len()
    &&& forall|k: int| #![trigger info.segments@[k]] 0 <= k < segs.len() ==> segment_is(info.segments@[k], segs[k].0, segs[k].1)
}

proof fn lemma_load_segments_prefix(buf: Seq<u8>, ps: Seq<PhdrInfo>, i: int)
    requires
        0 <= i <= ps.len(),
    ensures
        load_segments(buf, ps, i) is Ok && load_segments(buf, ps, i)->Ok_0 is Some ==> load_segments(buf, ps, i)->Ok_0->Some_0.len()
            <= ps.len() - i,
    decreases ps.len() - i,
{
    if i < ps.len() {
        lemma_load_segments_prefix(buf, ps, i + 1);
    }
}

/// The result of loading from headers (see `load_segments`): an image whose
/// entry point lies in no loadable segment is refused.
pub open spec fn load_result_ok(r: Result<ElfLoadInfo, ElfLoadError>, buf: Seq<u8>, h: ElfHeader, ps: Seq<PhdrInfo>) -> bool {
    match load_segments(buf, ps, 0) {
        Err(e) => r == Err::<ElfLoadInfo, ElfLoadError>(e),
        Ok(Some(segs)) => if entry_in_segments(segs, h.entry) {
            r is Ok && load_info_ok(r->Ok_0, h, segs)
        } else {
            r == Err::<ElfLoadInfo, ElfLoadError>(ElfLoadError::NoEntryInAnySegment)
        },
        Ok(None) => false,
    }
}

/// Builds the load information of an image from its headers; none where a
/// segment's file range would overflow the address width.
pub fn load_info_from_headers(buf: &[u8], h: ElfHeader, ps: &[PhdrInfo]) -> (r: Option<Result<ElfLoadInfo, ElfLoadError>>)
    ensures
        load_segments(buf@, ps@, 0) == Ok::<Option<Seq<(PhdrInfo, Seq<u8>)>>, ElfLoadError>(None) <==> r is None,
        r is Some ==> load_result_ok(r->Some_0, buf@, h, ps@),
{
    let mut segments: Vec<LoadedSegment> = Vec::new();
    let mut i: usize = 0;
    let ghost full = load_segments(buf@, ps@, 0);
    while i < ps.len()
        invariant
            i <= ps@.len(),
            full == load_segments(buf@, ps@, 0),
            ({
                let rest = load_segments(buf@, ps@, i as int);
                match full {
                    Err(e) => rest == Err::<Option<Seq<(PhdrInfo, Seq<u8>)>>, ElfLoadError>(e),
                    Ok(Some(all)) => rest is Ok && rest->Ok_0 is Some && segments@.len() + rest->Ok_0->Some_0.len() == all.len()
                        && all.subrange(segments@.len() as int, all.len() as int) == rest->Ok_0->Some_0 && forall|k: int|
                        #![trigger segments@[k]] 0 <= k < segments@.len() ==> segment_is(segments@[k], all[k].0, all[k].1),
                    Ok(None) => rest == full || rest is Ok && rest->Ok_0 is Some && false,
                }
            }),
            forall|q: int| 0 <= q < segments@.len() ==> (#[trigger] segments@[q]).virt_addr + segments@[q].mem_size <= u64::MAX,
        decreases ps@.len() - i,
    {
        let ph = ps[i];
        let ghost rest_next = load_segments(buf@, ps@, i + 1);
        if ph.p_type != PT_LOAD {
            i = i + 1;
            continue;
        }
        if ph.p_memsz < ph.p_filesz {
            return Some(Err(ElfLoadError::FileSizeLargerThanMemSize));
        }
        if !is_power_two(ph.p_align) {
            return Some(Err(ElfLoadError::AlignNotPowerTwo));
        }
        if ph.p_vaddr.checked_add(ph.p_memsz).is_none() {
            return Some(Err(ElfLoadError::VirtAddrOverflow));
        }
        if !(USER_SPACE_BOTTOM <= ph.p_vaddr && ph.p_vaddr < USER_SPACE_TOP) || !(USER_SPACE_BOTTOM <= ph.p_vaddr + ph.p_memsz
            - 1 && ph.p_vaddr + ph.p_memsz - 1 < USER_SPACE_TOP) {
            return Some(Err(ElfLoadError::SegmentVirtOutOfBounds));
        }
        let data = if ph.p_filesz > 0 {
            let start = ph.p_offset as usize;
            let end = match start.checked_add(ph.p_filesz as usize) {
                Some(e) => e,
                None => return None,
            };
            if end > buf.len() {
                return Some(Err(ElfLoadError::SegmentFileRangeOutOfBounds));
            }
            let mut d: Vec<u8> = Vec::new();
            let mut k: usize = start;
            while k < end
                invariant
                    start <= k <= end <= buf@.len(),
                    d@ == buf@.subrange(start as int, k as int),
                decreases end - k,
            {
                d.push(buf[k]);
                k = k + 1;
                assert(d@ =~= buf@.subrange(start as int, k as int));
            }
            d
        } else {
            Vec::new()
        };
        let ghost dv = data@;
        segments.push(
            LoadedSegment {
                virt_addr: ph.p_vaddr,
                file_offset: ph.p_offset,
                file_size: ph.p_filesz,
                mem_size: ph.p_memsz,
                flags: ph.p_flags,
                align: ph.p_align,
                data,
            },
        );
        proof {
            if let Ok(Some(all)) = full {
                let j = (segments@.len() - 1) as int;
                let rest = load_segments(buf@, ps@, i as int);
                assert(rest->Ok_0->Some_0[0] == all[j]);
                assert(all[j].1 =~= dv);
                assert(rest->Ok_0->Some_0.drop_first() =~= rest_next->Ok_0->Some_0);
                assert(all.subrange(segments@.len() as int, all.len() as int) =~= rest_next->Ok_0->Some_0);
            }
        }
        i = i + 1;
    }
    let entry = h.entry;
    let mut found = false;
    let mut k: usize = 0;
    proof {
        if let Ok(Some(all)) = full {
            assert(all.subrange(segments@.len() as int, all.len() as int).len() == 0);
            assert(segments@.len() == all.len());
        }
    }
    while k < segments.len() && !found
        invariant
            k <= segments@.len(),
            found ==> exists|q: int| 0 <= q < segments@.len() && (#[trigger] segments@[q]).virt_addr <= entry < segments@[q].virt_addr
                + segments@[q].mem_size,
            !found ==> forall|q: int| 0 <= q < k ==> !((#[trigger] segments@[q]).virt_addr <= entry < segments@[q].virt_addr
                + segments@[q].mem_size),
            forall|q: int| 0 <= q < segments@.len() ==> (#[trigger] segments@[q]).virt_addr + segments@[q].mem_size <= u64::MAX,
        decreases segments@.len() - k,
    {
        let s = &segments[k];
        if s.virt_addr <= entry && entry < s.virt_addr + s.mem_size {
            found = true;
        }
        k = k + 1;
    }
    proof {
        if let Ok(Some(all)) = full {
            if entry_in_segments(all, entry) {
                let q = choose|q: int| 0 <= q < all.len() && (#[trigger] all[q]).0.p_vaddr <= entry < all[q].0.p_vaddr + all[q].0.p_memsz;
                assert(segment_is(segments@[q], all[q].0, all[q].1));
            }
            if found {
                let q = choose|q: int| 0 <= q < segments@.len() && (#[trigger] segments@[q]).virt_addr <= entry < segments@[q].virt_addr
                    + segments@[q].mem_size;
                assert(segment_is(segments@[q], all[q].0, all[q].1));
            }
        }
    }
    if !found {
        return Some(Err(ElfLoadError::NoEntryInAnySegment));
    }
    Some(Ok(ElfLoadInfo { entry_point: h.entry, phoff: h.phoff, phentsize: h.phentsize, phnum: h.phnum, segments }))
}

/// Reads an ELF image's headers and builds its load information.
pub fn parse_elf(buf: &[u8]) -> (r: Result<ElfLoadInfo, ElfLoadError>)
    requires
        match elf_headers_of(buf@) {
            Ok(v) => load_segments(buf@, v.1, 0) != Ok::<Option<Seq<(PhdrInfo, Seq<u8>)>>, ElfLoadError>(None),
            Err(_) => true,
        },
    ensures
        match elf_headers_of(buf@) {
            Err(e) => r == Err::<ElfLoadInfo, ElfLoadError>(e),
            Ok(v) => load_result_ok(r, buf@, v.0, v.1),
        },
{
    let (h, ps) = match read_elf_headers(buf) {
        Ok(v) => v,
        Err(e) => return Err(e),
    };
    match load_info_from_headers(buf, h, ps.as_slice()) {
        Some(r) => r,
        None => Err(ElfLoadError::ParserError),
    }
}

/// Reads an ELF image's headers and builds its load information; none for an
/// image with a segment whose file range would overflow the address width.
pub fn try_parse_elf(buf: &[u8]) -> (r: Option<Result<ElfLoadInfo, ElfLoadError>>)
    ensures
        match elf_headers_of(buf@) {
            Err(e) => r == Some(Err::<ElfLoadInfo, ElfLoadError>(e)),
            Ok(v) => (load_segments(buf@, v.1, 0) == Ok::<Option<Seq<(PhdrInfo, Seq<u8>)>>, ElfLoadError>(None) <==> r is None)
                && (r is Some ==> load_result_ok(r->Some_0, buf@, v.0, v.1)),
        },
{
    let (h, ps) = match read_elf_headers(buf) {
        Ok(v) => v,
        Err(e) => return Some(Err(e)),
    };
    match load_info_from_headers(buf, h, ps.as_slice()) {
        Some(_) => Some(parse_elf(buf)),
        None => None,
    }
}

/// Where the program header table lies in memory: in the first segment with file
/// bytes whose file range holds `phoff`, at the same distance from its start.
/// None where an end or the address overflows (a segment's file end overflowing
/// first is an error).
pub open spec fn phdr_addr_from(segs: Seq<LoadedSegment>, phoff: u64, i: int) -> Option<Result<u64, ElfLoadError>>
    decreases segs.len() - i,
{
    if i >= segs.len() {
        Some(Err(ElfLoadError::PhdrNotMappedByLoad))
    } else {
        let s = segs[i];
        if s.file_size == 0 {
            phdr_addr_from(segs, phoff, i + 1)
        } else if s.file_offset + s.file_size > u64::MAX {
            Some(Err(ElfLoadError::VirtAddrOverflow))
        } else if s.file_offset <= phoff < s.file_offset + s.file_size {
            if s.virt_addr + (phoff - s.file_offset) > u64::MAX {
                None
            } else {
                Some(Ok((s.virt_addr + (phoff - s.file_offset)) as u64))
            }
        } else {
            phdr_addr_from(segs, phoff, i + 1)
        }
    }
}

/// The address of the program header table in the loaded image.
pub fn compute_phdr_addr(eli: &ElfLoadInfo) -> (r: Result<u64, ElfLoadError>)
    requires
        phdr_addr_from(eli.segments@, eli.phoff, 0) is Some,
    ensures
        Some(r) == phdr_addr_from(eli.segments@, eli.phoff, 0),
{
    let phoff = eli.phoff;
    let mut i: usize = 0;
    while i < eli.segments.len()
        invariant
            i <= eli.segments@.len(),
            phoff == eli.phoff,
            phdr_addr_from(eli.segments@, phoff, 0) == phdr_addr_from(eli.segments@, phoff, i as int),
            phdr_addr_from(eli.segments@, phoff, 0) is Some,
        decreases eli.segments@.len() - i,
    {
        let s = &eli.segments[i];
        if s.file_size != 0 {
            let seg_file_start = s.file_offset;
            let seg_file_end = match seg_file_start.checked_add(s.file_size) {
                Some(v) => v,
                None => return Err(ElfLoadError::VirtAddrOverflow),
            };
            if seg_file_start <= phoff && phoff < seg_file_end {
                let delta = phoff - seg_file_start;
                return Ok(s.virt_addr + delta);
            }
        }
        i = i + 1;
    }
    Err(ElfLoadError::PhdrNotMappedByLoad)
}

/// `compute_phdr_addr` where it is defined, and `None` where the address of the
/// header table would overflow.
pub fn try_compute_phdr_addr(eli: &ElfLoadInfo) -> (r: Option<Result<u64, ElfLoadError>>)
    ensures
        r == phdr_addr_from(eli.segments@, eli.phoff, 0),
{
    let phoff = eli.phoff;
    let mut i: usize = 0;
    while i < eli.segments.len()
        invariant
            i <= eli.segments@.len(),
            phoff == eli.phoff,
            phdr_addr_from(eli.segments@, phoff, 0) == phdr_addr_from(eli.segments@, phoff, i as int),
        decreases eli.segments@.len() - i,
    {
        let s = &eli.segments[i];
        if s.file_size != 0 {
            let seg_file_start = s.file_offset;
            let seg_file_end = match seg_file_start.checked_add(s.file_size) {
                Some(v) => v,
                None => return Some(Err(ElfLoadError::VirtAddrOverflow)),
            };
            if seg_file_start <= phoff && phoff < seg_file_end {
                let delta = phoff - seg_file_start;
                return match s.virt_addr.checked_add(delta) {
                    Some(a) => Some(Ok(a)),
                    None => None,
                };
            }
        }
        i = i + 1;
    }
    Some(Err(ElfLoadError::PhdrNotMappedByLoad))
}

/// The pages a segment of `memsz` bytes at `va` occupies: from the page holding
/// `va` to the page boundary at or after its end. Returns the first page and the
/// number of pages.
pub fn segment_pages(va: u64, memsz: u64) -> (r: (u64, u64))
    requires
        va + memsz + PAGE_SIZE <= u64::MAX,
    ensures
        r.0 == round_down(va as int, PAGE_SIZE as int),
        r.1 == (round_up(va + memsz, PAGE_SIZE as int) - round_down(va as int, PAGE_SIZE as int)) / (PAGE_SIZE as int),
{
    let seg_end = va + memsz;
    let map_base = align_down(va);
    let map_end = align_up(seg_end);
    assert(map_base <= va) by (nonlinear_arith)
        requires
            map_base == (va / 4096) * 4096,
    ;
    assert(map_end >= seg_end) by (nonlinear_arith)
        requires
            map_end == ((seg_end + 4096 - 1) / 4096) * 4096,
    ;
    (map_base, (map_end - map_base) / PAGE_SIZE)
}

/// A page may be mapped only once while loading.
pub fn check_page_free(mapped: &[u64], va: u64) -> (r: Result<(), MapElfError>)
    ensures
        r == (if mapped@.contains(va) {
            Err(MapElfError::OverlappingPage { va })
        } else {
            Ok::<(), MapElfError>(())
        }),
{
    let mut i: usize = 0;
    while i < mapped.len()
        invariant
            i <= mapped@.len(),
            forall|j: int| 0 <= j < i ==> mapped@[j] != va,
        decreases mapped@.len() - i,
    {
        if mapped[i] == va {
            return Err(MapElfError::OverlappingPage { va });
        }
        i = i + 1;
    }
    Ok(())
}

/// What is copied into and zeroed in a segment after its pages are mapped: the
/// file bytes at its start (refused if more than its size), then zeros up to
/// its size. Returns where zeroing starts and how many bytes it clears.
pub fn segment_fill(va: u64, filesz: usize, memsz: u64) -> (r: Result<(u64, u64), MapElfError>)
    ensures
        filesz > 0 && filesz > memsz ==> r == Err::<(u64, u64), MapElfError>(MapElfError::CopyTooLarge),
        !(filesz > 0 && filesz > memsz) && memsz > filesz && va + filesz > u64::MAX ==> r == Err::<(u64, u64), MapElfError>(
            MapElfError::Overflow,
        ),
        !(filesz > 0 && filesz > memsz) && memsz > filesz && va + filesz <= u64::MAX ==> r == Ok::<(u64, u64), MapElfError>(
            ((va + filesz) as u64, (memsz - filesz) as u64),
        ),
        !(filesz > 0 && filesz > memsz) && memsz <= filesz ==> r == Ok::<(u64, u64), MapElfError>((va, 0)),
{
    if filesz > 0 && filesz as u64 > memsz {
        return Err(MapElfError::CopyTooLarge);
    }
    if memsz > filesz as u64 {
        let zero_start = match va.checked_add(filesz as u64) {
            Some(v) => v,
            None => return Err(MapElfError::Overflow),
        };
        return Ok((zero_start, memsz - filesz as u64));
    }
    Ok((va, 0))
}

/// The highest segment end (`virt_addr + mem_size`) among the first `n` segments,
/// or 0 when there are none.
pub open spec fn segments_max_end(segs: Seq<LoadedSegment>, n: int) -> int
    decreases n,
{
    if n <= 0 {
        0
    } else {
        let m = segments_max_end(segs, n - 1);
        let e = segs[n - 1].virt_addr + segs[n - 1].mem_size;
        if e > m {
            e
        } else {
            m
        }
    }
}

proof fn lemma_segments_max_end(segs: Seq<LoadedSegment>, n: int)
    requires
        0 <= n <= segs.len(),
        forall|j: int| 0 <= j < segs.len() ==> #[trigger] segs[j].virt_addr + segs[j].mem_size <= u64::MAX,
    ensures
        0 <= segments_max_end(segs, n) <= u64::MAX,
        forall|j: int| 0 <= j < n ==> #[trigger] segs[j].virt_addr + segs[j].mem_size <= segments_max_end(segs, n),
        n == 0 || segments_max_end(segs, n) == 0 || exists|j: int|
            0 <= j < n && #[trigger] segs[j].virt_addr + segs[j].mem_size == segments_max_end(segs, n),
    decreases n,
{
    if n > 0 {
        lemma_segments_max_end(segs, n - 1);
        let e = segs[n - 1].virt_addr + segs[n - 1].mem_size;
        if e > segments_max_end(segs, n - 1) {
            assert(segs[n - 1].virt_addr + segs[n - 1].mem_size == segments_max_end(segs, n));
        } else if segments_max_end(segs, n) != 0 && n > 1 {
            let j = choose|j: int|
                0 <= j < n - 1 && #[trigger] segs[j].virt_addr + segs[j].mem_size == segments_max_end(segs, n - 1);
            assert(segs[j].virt_addr + segs[j].mem_size == segments_max_end(segs, n));
        }
    }
}

/// The address loading reports once every segment is mapped: the highest end of
/// any segment, which is where the heap may begin; 0 for an image without
/// segments.
pub fn elf_max_end(segs: &[LoadedSegment]) -> (r: u64)
    requires
        forall|j: int| 0 <= j < segs@.len() ==> #[trigger] segs@[j].virt_addr + segs@[j].mem_size <= u64::MAX,
    ensures
        r == segments_max_end(segs@, segs@.len() as int),
        forall|j: int| 0 <= j < segs@.len() ==> #[trigger] segs@[j].virt_addr + segs@[j].mem_size <= r,
        r == 0 || exists|j: int|
            0 <= j < segs@.len() && #[trigger] segs@[j].virt_addr + segs@[j].mem_size == r,
{
    let mut max_end_va: u64 = 0;
    let mut i: usize = 0;
    proof {
        lemma_segments_max_end(segs@, segs@.len() as int);
    }
    while i < segs.len()
        invariant
            i <= segs@.len(),
            forall|j: int| 0 <= j < segs@.len() ==> #[trigger] segs@[j].virt_addr + segs@[j].mem_size <= u64::MAX,
            max_end_va == segments_max_end(segs@, i as int),
        decreases segs@.len() - i,
    {
        proof {
            lemma_segments_max_end(segs@, i as int + 1);
        }
        let end = segs[i].virt_addr + segs[i].mem_size;
        if end > max_end_va {
            max_end_va = end;
        }
        i = i + 1;
    }
    max_end_va
}

/// The user stack: its top at the page-aligned top of user space, its mapped
/// pages below, and below those a guard page. Returns the top and the guard's
/// page.
pub fn user_stack_range() -> (r: (u64, u64))
    ensures
        r.0 == round_down(USER_SPACE_TOP as int, PAGE_SIZE as int),
        r.1 == round_down(r.0 - PROCESS_STACK_PAGES * PAGE_SIZE - PAGE_SIZE, PAGE_SIZE as int),
{
    let stack_top = align_down(USER_SPACE_TOP);
    let stack_bottom = stack_top - PROCESS_STACK_PAGES * PAGE_SIZE;
    let guard = align_down(stack_bottom - PAGE_SIZE);
    (stack_top, guard)
}

} // verus!
