//! What the boot loader decides: how firmware memory descriptors become the
//! memory regions handed to the kernel, and how far the boot identity mapping
//! reaches.

use vstd::prelude::*;
use crate::memory::bmp_alloc::max_usable_end;
use crate::proc::elf::{elf_headers_of, read_elf_headers, ElfHeader, PhdrInfo, PT_LOAD};
use crate::shared::{early_usable, MemoryRegion, MemoryRegionKind, PAGE_SIZE};
use crate::sys::errors::ElfLoadError;

verus! {

/// Firmware memory types, by their numbers in the UEFI specification.
pub const EFI_LOADER_CODE: u32 = 1;
pub const EFI_LOADER_DATA: u32 = 2;
pub const EFI_BOOT_SERVICES_CODE: u32 = 3;
pub const EFI_BOOT_SERVICES_DATA: u32 = 4;
pub const EFI_CONVENTIONAL_MEMORY: u32 = 7;
pub const EFI_ACPI_RECLAIM_MEMORY: u32 = 9;
pub const EFI_PERSISTENT_MEMORY: u32 = 14;

/// How far above the highest usable address the identity mapping reaches.
pub const IDENTITY_PAD: u64 = 0x200000;

/// The kind of region a firmware memory type becomes.
pub open spec fn region_kind(ty: u32) -> MemoryRegionKind {
    if ty == EFI_CONVENTIONAL_MEMORY {
        MemoryRegionKind::Usable
    } else if ty == EFI_BOOT_SERVICES_CODE || ty == EFI_BOOT_SERVICES_DATA || ty == EFI_PERSISTENT_MEMORY {
        MemoryRegionKind::EarlyReclaimable
    } else if ty == EFI_ACPI_RECLAIM_MEMORY {
        MemoryRegionKind::AcpiReclaimable
    } else if ty == EFI_LOADER_CODE || ty == EFI_LOADER_DATA {
        MemoryRegionKind::LateReclaimable
    } else {
        MemoryRegionKind::Reserved
    }
}

/// The region kind of firmware memory type `ty`: free memory is usable, boot
/// services and persistent memory can be taken back early, the loader's own
/// memory late, ACPI tables once read; all else is reserved.
pub fn convert_type(ty: u32) -> (r: MemoryRegionKind)
    ensures
        r == region_kind(ty),
{
    if ty == EFI_CONVENTIONAL_MEMORY {
        MemoryRegionKind::Usable
    } else if ty == EFI_BOOT_SERVICES_CODE || ty == EFI_BOOT_SERVICES_DATA || ty == EFI_PERSISTENT_MEMORY {
        MemoryRegionKind::EarlyReclaimable
    } else if ty == EFI_ACPI_RECLAIM_MEMORY {
        MemoryRegionKind::AcpiReclaimable
    } else if ty == EFI_LOADER_CODE || ty == EFI_LOADER_DATA {
        MemoryRegionKind::LateReclaimable
    } else {
        MemoryRegionKind::Reserved
    }
}

/// Which firmware memory the kernel gets: the frame allocators may take exactly
/// free memory, boot-services code and data, persistent memory and ACPI-reclaimable
/// memory; of these only free memory is usable from the start, and boot services
/// and persistent memory are the memory reclaimed early. The loader's own code and
/// data come back late, and every other type stays reserved.
pub proof fn law_region_kinds(ty: u32)
    ensures
        crate::shared::spec_early_usable(region_kind(ty)) == (ty == EFI_CONVENTIONAL_MEMORY || ty
            == EFI_BOOT_SERVICES_CODE || ty == EFI_BOOT_SERVICES_DATA || ty == EFI_PERSISTENT_MEMORY || ty
            == EFI_ACPI_RECLAIM_MEMORY),
        (region_kind(ty) == MemoryRegionKind::Usable) == (ty == EFI_CONVENTIONAL_MEMORY),
        (region_kind(ty) == MemoryRegionKind::EarlyReclaimable) == (ty == EFI_BOOT_SERVICES_CODE || ty
            == EFI_BOOT_SERVICES_DATA || ty == EFI_PERSISTENT_MEMORY),
        (region_kind(ty) == MemoryRegionKind::LateReclaimable) == (ty == EFI_LOADER_CODE || ty == EFI_LOADER_DATA),
        (region_kind(ty) == MemoryRegionKind::Reserved) == !(ty == EFI_CONVENTIONAL_MEMORY || ty
            == EFI_BOOT_SERVICES_CODE || ty == EFI_BOOT_SERVICES_DATA || ty == EFI_PERSISTENT_MEMORY || ty
            == EFI_ACPI_RECLAIM_MEMORY || ty == EFI_LOADER_CODE || ty == EFI_LOADER_DATA),
{
}

/// The region a firmware descriptor describes: `page_count` 4 KiB pages from
/// `phys_start`.
pub fn region_of(phys_start: u64, page_count: u64, ty: u32) -> (r: MemoryRegion)
    requires
        phys_start + page_count * PAGE_SIZE <= u64::MAX,
    ensures
        r.start == phys_start,
        r.end == phys_start + page_count * PAGE_SIZE,
        r.kind == region_kind(ty),
{
    MemoryRegion { start: phys_start, end: phys_start + page_count * PAGE_SIZE, kind: convert_type(ty) }
}

/// A loadable segment of the kernel image, with the bytes the file holds for it.
#[derive(Debug, Clone)]
pub struct LoadedSegment {
    pub phys_addr: u64,
    pub virt_addr: u64,
    pub file_size: u64,
    pub mem_size: u64,
    pub align: u64,
    pub flags: u32,
    pub data: Vec<u8>,
}

/// The kernel image as the loader places it: its entry point and its segments.
#[derive(Debug, Clone)]
pub struct KernelLoadInfo {
    pub entry_point: u64,
    pub segments: Vec<LoadedSegment>,
}

/// How far the boot identity mapping reaches: the highest end of a region
/// usable early, plus a 2 MiB pad.
pub fn calc_identity_limit(regions: &[MemoryRegion]) -> (r: u64)
    requires
        max_usable_end(regions@, regions@.len() as int) + IDENTITY_PAD <= u64::MAX,
    ensures
        r == max_usable_end(regions@, regions@.len() as int) + IDENTITY_PAD,
{
    let mut max: u64 = 0;
    let mut i: usize = 0;
    while i < regions.len()
        invariant
            i <= regions@.len(),
            max == max_usable_end(regions@, i as int),
            max_usable_end(regions@, regions@.len() as int) + IDENTITY_PAD <= u64::MAX,
        decreases regions@.len() - i,
    {
        let r = regions[i];
        if early_usable(r.kind) {
            if r.end > max {
                max = r.end;
            }
        }
        i = i + 1;
    }
    max + IDENTITY_PAD
}

/// The loadable segments of a kernel image from program header `i` on, each with
/// the file bytes it holds; none where a segment's file bytes run past the image.
pub open spec fn kernel_segments(buf: Seq<u8>, ps: Seq<PhdrInfo>, i: int) -> Option<Seq<(PhdrInfo, Seq<u8>)>>
    decreases ps.len() - i,
{
    if i >= ps.len() {
        Some(Seq::empty())
    } else {
        let ph = ps[i];
        let start = (ph.p_offset as usize) as int;
        let end = start + (ph.p_filesz as usize) as int;
        if ph.p_type != PT_LOAD {
            kernel_segments(buf, ps, i + 1)
        } else if ph.p_filesz > 0 && end > buf.len() {
            None
        } else {
            let data = if ph.p_filesz > 0 {
                buf.subrange(start, end)
            } else {
                Seq::empty()
            };
            match kernel_segments(buf, ps, i + 1) {
                Some(rest) => Some(seq![(ph, data)] + rest),
                None => None,
            }
        }
    }
}

/// `s` is the segment that header `ph` with file bytes `d` becomes, before it is
/// given frames.
pub open spec fn kernel_segment_is(s: LoadedSegment, ph: PhdrInfo, d: Seq<u8>) -> bool {
    &&& s.phys_addr == 0
    &&& s.virt_addr == ph.p_vaddr
    &&& s.file_size == ph.p_filesz
    &&& s.mem_size == ph.p_memsz
    &&& s.flags == ph.p_flags
    &&& s.align == ph.p_align
    &&& s.data@ == d
}

/// `info` describes a kernel image with file header `h` and segments `segs`.
pub open spec fn kernel_info_is(info: KernelLoadInfo, h: ElfHeader, segs: Seq<(PhdrInfo, Seq<u8>)>) -> bool {
    &&& info.entry_point == h.entry
    &&& info.segments@.len() == segs.len()
    &&& forall|k: int|
        #![trigger info.segments@[k]]
        0 <= k < segs.len() ==> kernel_segment_is(info.segments@[k], segs[k].0, segs[k].1)
}

/// The kernel image's entry point and loadable segments, from its headers; none
/// where a segment's file bytes run past the image.
pub fn kernel_info_from_headers(buf: &[u8], h: ElfHeader, ps: &[PhdrInfo]) -> (r: Option<KernelLoadInfo>)
    ensures
        match kernel_segments(buf@, ps@, 0) {
            Some(segs) => r is Some && kernel_info_is(r->Some_0, h, segs),
            None => r is None,
        },
{
    let mut segments: Vec<LoadedSegment> = Vec::new();
    let ghost full = kernel_segments(buf@, ps@, 0);
    let mut i: usize = 0;
    while i < ps.len()
        invariant
            i <= ps@.len(),
            full == kernel_segments(buf@, ps@, 0),
            ({
                let rest = kernel_segments(buf@, ps@, i as int);
                match full {
                    None => rest is None,
                    Some(all) => rest is Some && segments@.len() + rest->Some_0.len() == all.len()
                        && all.subrange(segments@.len() as int, all.len() as int) == rest->Some_0
                        && forall|k: int|
                        #![trigger segments@[k]]
                        0 <= k < segments@.len() ==> kernel_segment_is(segments@[k], all[k].0, all[k].1),
                }
            }),
        decreases ps@.len() - i,
    {
        let ph = ps[i];
        let ghost rest_next = kernel_segments(buf@, ps@, i + 1);
        if ph.p_type != PT_LOAD {
            i = i + 1;
            continue;
        }
        let data = if ph.p_filesz > 0 {
            let start = ph.p_offset as usize;
            let blen = buf.len();
            let end = match start.checked_add(ph.p_filesz as usize) {
                Some(e) => e,
                None => {
                    assert(kernel_segments(buf@, ps@, i as int) is None);
                    return None;
                },
            };
            if end > blen {
                return None;
            }
            let mut d: Vec<u8> = Vec::new();
            let mut k: usize = start;
            while k < end
                invariant
                    start <= k <= end <= buf@.len(),
                    d@ == buf@.subrange(start as int, k as int),
                decreases end - k,
            {
                d.push(buf[k]);
                k = k + 1;
                assert(d@ =~= buf@.subrange(start as int, k as int));
            }
            d
        } else {
            Vec::new()
        };
        let ghost dv = data@;
        segments.push(
            LoadedSegment {
                phys_addr: 0,
                virt_addr: ph.p_vaddr,
                file_size: ph.p_filesz,
                mem_size: ph.p_memsz,
                flags: ph.p_flags,
                align: ph.p_align,
                data,
            },
        );
        proof {
            if let Some(all) = full {
                let j = (segments@.len() - 1) as int;
                let rest = kernel_segments(buf@, ps@, i as int);
                assert(rest->Some_0[0] == all[j]);
                assert(all[j].1 =~= dv);
                assert(rest->Some_0.drop_first() =~= rest_next->Some_0);
                assert(all.subrange(segments@.len() as int, all.len() as int) =~= rest_next->Some_0);
            }
        }
        i = i + 1;
    }
    proof {
        if let Some(all) = full {
            assert(all.subrange(segments@.len() as int, all.len() as int).len() == 0);
        }
    }
    Some(KernelLoadInfo { entry_point: h.entry, segments })
}

/// Reads the kernel image's headers and takes its entry point and loadable
/// segments; none where the image does not parse or a segment's file bytes run
/// past it.
pub fn load_kernel(image: &[u8]) -> (r: Option<KernelLoadInfo>)
    requires
        elf_headers_of(image@) != Err::<(ElfHeader, Seq<PhdrInfo>), ElfLoadError>(
            ElfLoadError::PhdrError,
        ),
    ensures
        match elf_headers_of(image@) {
            Err(_) => r is None,
            Ok(v) => match kernel_segments(image@, v.1, 0) {
                Some(segs) => r is Some && kernel_info_is(r->Some_0, v.0, segs),
                None => r is None,
            },
        },
{
    let (h, ps) = match read_elf_headers(image) {
        Ok(v) => v,
        Err(_) => {
            return None;
        },
    };
    kernel_info_from_headers(image, h, ps.as_slice())
}

/// `load_kernel` on an image with program headers; none for an image without them.
pub fn try_load_kernel(image: &[u8]) -> (r: Option<Option<KernelLoadInfo>>)
    ensures
        match elf_headers_of(image@) {
            Err(ElfLoadError::PhdrError) => r is None,
            Err(_) => r == Some(None::<KernelLoadInfo>),
            Ok(v) => r is Some && match kernel_segments(image@, v.1, 0) {
                Some(segs) => r->Some_0 is Some && kernel_info_is(r->Some_0->Some_0, v.0, segs),
                None => r->Some_0 is None,
            },
        },
{
    match read_elf_headers(image) {
        Err(ElfLoadError::PhdrError) => None,
        _ => Some(load_kernel(image)),
    }
}

} // verus!
