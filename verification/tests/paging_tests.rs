use ros::boot::{load_kernel, try_load_kernel, KernelLoadInfo, LoadedSegment};
use ros::paging::{
    build_boot_page_tables, identity_map_upto_2mib, map_page, map_page_2mib, map_physical_range,
    new_tables, OutOfFrames, TableMemory,
};
use ros::shared::{
    BootInfo, FramebufferInfo, MemoryRegion, MemoryRegionKind, PhysicalAllocator, BOOTINFO_VIRT_BASE,
    FRAMEBUFFER_VIRT_BASE, KERNEL_STACK_STRIDE, KERNEL_STACK_VIRT_BASE, PHYS_OFFSET,
};

fn leak(v: Vec<MemoryRegion>) -> &'static [MemoryRegion] {
    Box::leak(v.into_boxed_slice())
}

fn big_map() -> &'static [MemoryRegion] {
    leak(vec![
        MemoryRegion { start: 0, end: 0x9_F000, kind: MemoryRegionKind::Usable },
        MemoryRegion { start: 0x10_0000, end: 0x80_0000, kind: MemoryRegionKind::Usable },
        MemoryRegion { start: 0x80_0000, end: 0x90_0000, kind: MemoryRegionKind::Reserved },
    ])
}

fn fresh() -> (PhysicalAllocator, TableMemory, u64) {
    let mut a = PhysicalAllocator::new(big_map());
    let (mem, root) = new_tables(&mut a).unwrap();
    (a, mem, root)
}

#[test]
fn new_tables_take_one_frame_and_map_nothing() {
    let (a, mem, root) = fresh();
    assert_eq!(root, 0x10_0000);
    assert_eq!(a.next, 0x10_1000);
    assert_eq!(mem.frame_list(), vec![0x10_0000]);
    assert_eq!(mem.translate(root, 0), 0);
    assert_eq!(mem.translate(root, 0xFFFF_FFFF_8000_0000), 0);
}

#[test]
fn map_page_then_translate() {
    let (mut a, mut mem, root) = fresh();
    map_page(&mut mem, &mut a, root, 0xFFFF_FFFF_8000_3000, 0x55_5000, 0x3).unwrap();
    assert_eq!(mem.translate(root, 0xFFFF_FFFF_8000_3000), 0x55_5003);
    assert_eq!(mem.translate(root, 0xFFFF_FFFF_8000_3ABC), 0x55_5003);
    assert_eq!(mem.translate(root, 0xFFFF_FFFF_8000_4000), 0);
    assert_eq!(mem.translate(root, 0xFFFF_FFFF_8000_2000), 0);
    // three tables below the top-level one
    assert_eq!(mem.frame_list().len(), 4);
    // a second page in the same table takes no new frame
    map_page(&mut mem, &mut a, root, 0xFFFF_FFFF_8000_4000, 0x66_6000, 0x1B).unwrap();
    assert_eq!(mem.frame_list().len(), 4);
    assert_eq!(mem.translate(root, 0xFFFF_FFFF_8000_4000), 0x66_601B);
    assert_eq!(mem.translate(root, 0xFFFF_FFFF_8000_3000), 0x55_5003);
}

#[test]
fn top_level_entry_names_the_next_table() {
    let (mut a, mut mem, root) = fresh();
    map_page(&mut mem, &mut a, root, 0x1000, 0x2000, 0x3).unwrap();
    assert_eq!(mem.entry(root, 0), Some(0x10_1003));
    assert_eq!(mem.entry(0x10_1000, 0), Some(0x10_2003));
    assert_eq!(mem.entry(0x10_2000, 0), Some(0x10_3003));
    assert_eq!(mem.entry(0x10_3000, 1), Some(0x2003));
    assert_eq!(mem.entry(0x10_3000, 512), None);
    assert_eq!(mem.entry(0x99_9000, 0), None);
}

#[test]
fn huge_page_maps_its_512_pages() {
    let (mut a, mut mem, root) = fresh();
    map_page_2mib(&mut mem, &mut a, root, 0x20_0000, 0x40_0000, 0x3).unwrap();
    assert_eq!(mem.entry(0x10_2000, 1), Some(0x40_0083));
    assert_eq!(mem.translate(root, 0x20_0000), 0x40_0003);
    assert_eq!(mem.translate(root, 0x20_5123), 0x40_5003);
    assert_eq!(mem.translate(root, 0x3F_F000), 0x5F_F003);
    assert_eq!(mem.translate(root, 0x40_0000), 0);
}

#[test]
fn remapping_a_page_inside_a_huge_page_splits_it() {
    let (mut a, mut mem, root) = fresh();
    map_page_2mib(&mut mem, &mut a, root, 0x20_0000, 0x40_0000, 0x3).unwrap();
    assert_eq!(mem.frame_list().len(), 3);
    map_page(&mut mem, &mut a, root, 0x20_5000, 0x9000, 0x3).unwrap();
    assert_eq!(mem.frame_list().len(), 4);
    assert_eq!(mem.translate(root, 0x20_5000), 0x9003);
    assert_eq!(mem.translate(root, 0x20_4000), 0x40_4003);
    assert_eq!(mem.translate(root, 0x20_6000), 0x40_6003);
    assert_eq!(mem.translate(root, 0x3F_F000), 0x5F_F003);
    // the directory entry now names the new table, without the size bit
    assert_eq!(mem.entry(0x10_2000, 1), Some(0x10_3003));
}

#[test]
fn split_moves_the_attribute_bit() {
    let (mut a, mut mem, root) = fresh();
    map_page_2mib(&mut mem, &mut a, root, 0x20_0000, 0x40_0000, 0x1003).unwrap();
    assert_eq!(mem.translate(root, 0x20_1000), 0x40_1083);
    map_page(&mut mem, &mut a, root, 0x20_0000, 0x7000, 0x3).unwrap();
    assert_eq!(mem.translate(root, 0x20_1000), 0x40_1083);
    assert_eq!(mem.translate(root, 0x20_0000), 0x7003);
}

#[test]
fn huge_mapping_replaces_small_pages() {
    let (mut a, mut mem, root) = fresh();
    map_page(&mut mem, &mut a, root, 0x20_5000, 0x9000, 0x3).unwrap();
    map_page_2mib(&mut mem, &mut a, root, 0x20_0000, 0x60_0000, 0x3).unwrap();
    assert_eq!(mem.translate(root, 0x20_5000), 0x60_5003);
}

#[test]
fn identity_map_covers_the_limit_rounded_up() {
    let (mut a, mut mem, root) = fresh();
    identity_map_upto_2mib(&mut mem, &mut a, root, 0x30_0000).unwrap();
    assert_eq!(mem.translate(root, 0), 0x3);
    assert_eq!(mem.translate(root, 0x3F_F000), 0x3F_F003);
    assert_eq!(mem.translate(root, 0x40_0000), 0);
}

#[test]
fn identity_map_of_nothing_maps_nothing() {
    let (mut a, mut mem, root) = fresh();
    identity_map_upto_2mib(&mut mem, &mut a, root, 0).unwrap();
    assert_eq!(mem.translate(root, 0), 0);
    assert_eq!(mem.frame_list().len(), 1);
}

#[test]
fn physical_range_is_widened_to_pages() {
    let (mut a, mut mem, root) = fresh();
    let v = map_physical_range(&mut mem, &mut a, root, 0x12345, 0x2000, BOOTINFO_VIRT_BASE, 0x3).unwrap();
    assert_eq!(v, BOOTINFO_VIRT_BASE + 0x345);
    assert_eq!(mem.translate(root, BOOTINFO_VIRT_BASE), 0x12003);
    assert_eq!(mem.translate(root, BOOTINFO_VIRT_BASE + 0x1000), 0x13003);
    assert_eq!(mem.translate(root, BOOTINFO_VIRT_BASE + 0x2000), 0x14003);
    assert_eq!(mem.translate(root, BOOTINFO_VIRT_BASE + 0x3000), 0);
}

#[test]
fn running_out_of_frames_is_an_error() {
    let tiny = leak(vec![MemoryRegion { start: 0x10_0000, end: 0x10_2000, kind: MemoryRegionKind::Usable }]);
    let mut a = PhysicalAllocator::new(tiny);
    let (mut mem, root) = new_tables(&mut a).unwrap();
    let r = map_page(&mut mem, &mut a, root, 0x1000, 0x2000, 0x3);
    assert_eq!(r, Err(OutOfFrames));
    assert_eq!(mem.translate(root, 0x1000), 0);
    assert!(new_tables(&mut a).is_err());
}

fn boot_info() -> BootInfo {
    BootInfo {
        memory_regions: big_map(),
        framebuffer: Some(FramebufferInfo { addr: 0x8000_0000, width: 4, height: 2, stride: 1024 }),
        kernel_stack_top: 0,
        phys_alloc_current: 0,
        phys_alloc_next: 0,
        rsdp: 0x1234,
        identity_limit: 0,
    }
}

fn kernel() -> KernelLoadInfo {
    KernelLoadInfo {
        entry_point: 0xFFFF_FFFF_8000_0000,
        segments: vec![
            LoadedSegment {
                phys_addr: 0x30_0000,
                virt_addr: 0xFFFF_FFFF_8000_0000,
                file_size: 0x1800,
                mem_size: 0x2100,
                align: 0x1000,
                flags: 5,
                data: vec![0; 0x1800],
            },
            LoadedSegment {
                phys_addr: 0x31_0000,
                virt_addr: 0xFFFF_FFFF_8000_2010,
                file_size: 0x10,
                mem_size: 0x10,
                align: 0x1000,
                flags: 6,
                data: vec![0; 0x10],
            },
        ],
    }
}

#[test]
fn boot_tables_map_everything_the_kernel_needs() {
    let mut bi = boot_info();
    let mut a = PhysicalAllocator::new(big_map());
    let k = kernel();
    let (mem, info, memmap_virt) =
        build_boot_page_tables(&mut a, &k, 0x80_0000, &mut bi, 0x7_0010, 80, 0x7_1000, 24).unwrap();
    let root = info.pml4_phys;
    assert_eq!(root, 0x10_0000);
    assert_eq!(info.bootinfo_virt, BOOTINFO_VIRT_BASE + 0x10);
    assert_eq!(info.kernel_stack_top, KERNEL_STACK_VIRT_BASE + KERNEL_STACK_STRIDE);
    assert_eq!(memmap_virt, BOOTINFO_VIRT_BASE + 0x10000);
    // identity
    assert_eq!(mem.translate(root, 0x7F_F000), 0x7F_F003);
    assert_eq!(mem.translate(root, 0x80_0000), 0);
    // direct map of usable memory, widened to 2 MiB
    assert_eq!(mem.translate(root, PHYS_OFFSET + 0x12_3000), 0x12_3003);
    assert_eq!(mem.translate(root, PHYS_OFFSET + 0x7F_F000), 0x7F_F003);
    assert_eq!(mem.translate(root, PHYS_OFFSET + 0x80_0000), 0);
    // boot information and memory map
    assert_eq!(mem.translate(root, BOOTINFO_VIRT_BASE), 0x7_0003);
    assert_eq!(mem.translate(root, BOOTINFO_VIRT_BASE + 0x10000), 0x7_1003);
    assert_eq!(mem.translate(root, BOOTINFO_VIRT_BASE + 0x11000), 0);
    // framebuffer: 2 rows of 1024 pixels, 8 KiB, uncached
    assert_eq!(bi.framebuffer.as_ref().unwrap().addr, FRAMEBUFFER_VIRT_BASE);
    assert_eq!(mem.translate(root, FRAMEBUFFER_VIRT_BASE + 0x1000), 0x8000_101B);
    assert_eq!(mem.translate(root, FRAMEBUFFER_VIRT_BASE + 0x2000), 0);
    // kernel segments; the second one's page replaces the first one's last page
    assert_eq!(mem.translate(root, 0xFFFF_FFFF_8000_0000), 0x30_0003);
    assert_eq!(mem.translate(root, 0xFFFF_FFFF_8000_1000), 0x30_1003);
    assert_eq!(mem.translate(root, 0xFFFF_FFFF_8000_2000), 0x31_0003);
    assert_eq!(mem.translate(root, 0xFFFF_FFFF_8000_3000), 0);
    // kernel stack: guard page unmapped, the others on distinct new frames
    assert_eq!(mem.translate(root, KERNEL_STACK_VIRT_BASE), 0);
    let s1 = mem.translate(root, KERNEL_STACK_VIRT_BASE + 0x1000);
    let s2 = mem.translate(root, KERNEL_STACK_VIRT_BASE + 0x2000);
    let top = mem.translate(root, KERNEL_STACK_VIRT_BASE + KERNEL_STACK_STRIDE - 0x1000);
    assert_eq!(s1 & 0xFFF, 3);
    assert_ne!(s1, s2);
    assert_ne!(top, 0);
    assert_eq!(mem.translate(root, KERNEL_STACK_VIRT_BASE + KERNEL_STACK_STRIDE), 0);
    // the rest of the boot information is untouched
    assert_eq!(bi.rsdp, 0x1234);
}

#[test]
fn boot_tables_fail_cleanly_without_frames() {
    let mut bi = boot_info();
    let small = leak(vec![MemoryRegion { start: 0x10_0000, end: 0x10_8000, kind: MemoryRegionKind::Usable }]);
    let mut a = PhysicalAllocator::new(small);
    let k = kernel();
    let r = build_boot_page_tables(&mut a, &k, 0x80_0000, &mut bi, 0x7_0010, 80, 0x7_1000, 24);
    assert!(r.is_err());
}

fn kernel_image(entry: u64, phdrs: &[(u32, u64, u64, u64, u64)], body: usize) -> Vec<u8> {
    let mut b = Vec::new();
    b.extend_from_slice(&[0x7f, b'E', b'L', b'F', 2, 1, 1, 0, 0, 0, 0, 0, 0, 0, 0, 0]);
    b.extend_from_slice(&2u16.to_le_bytes());
    b.extend_from_slice(&0x3eu16.to_le_bytes());
    b.extend_from_slice(&1u32.to_le_bytes());
    b.extend_from_slice(&entry.to_le_bytes());
    b.extend_from_slice(&64u64.to_le_bytes());
    b.extend_from_slice(&0u64.to_le_bytes());
    b.extend_from_slice(&0u32.to_le_bytes());
    b.extend_from_slice(&64u16.to_le_bytes());
    b.extend_from_slice(&56u16.to_le_bytes());
    b.extend_from_slice(&(phdrs.len() as u16).to_le_bytes());
    b.extend_from_slice(&64u16.to_le_bytes());
    b.extend_from_slice(&0u16.to_le_bytes());
    b.extend_from_slice(&0u16.to_le_bytes());
    for &(ty, off, vaddr, filesz, memsz) in phdrs {
        b.extend_from_slice(&ty.to_le_bytes());
        b.extend_from_slice(&6u32.to_le_bytes());
        b.extend_from_slice(&off.to_le_bytes());
        b.extend_from_slice(&vaddr.to_le_bytes());
        b.extend_from_slice(&vaddr.to_le_bytes());
        b.extend_from_slice(&filesz.to_le_bytes());
        b.extend_from_slice(&memsz.to_le_bytes());
        b.extend_from_slice(&0x1000u64.to_le_bytes());
    }
    for i in 0..body {
        b.push(i as u8);
    }
    b
}

#[test]
fn kernel_image_gives_its_loadable_segments() {
    let img = kernel_image(
        0xFFFF_FFFF_8000_0010,
        &[
            (1, 0, 0xFFFF_FFFF_8000_0000, 0x20, 0x3000),
            (4, 0x10, 0, 0x8, 0x8),
            (1, 0, 0xFFFF_FFFF_8000_4000, 0, 0x1000),
        ],
        16,
    );
    let info = load_kernel(&img).unwrap();
    assert_eq!(info.entry_point, 0xFFFF_FFFF_8000_0010);
    assert_eq!(info.segments.len(), 2);
    let s = &info.segments[0];
    assert_eq!(s.phys_addr, 0);
    assert_eq!(s.virt_addr, 0xFFFF_FFFF_8000_0000);
    assert_eq!(s.file_size, 0x20);
    assert_eq!(s.mem_size, 0x3000);
    assert_eq!(s.flags, 6);
    assert_eq!(s.align, 0x1000);
    assert_eq!(s.data, img[0..0x20].to_vec());
    assert!(info.segments[1].data.is_empty());
    assert_eq!(info.segments[1].mem_size, 0x1000);
}

#[test]
fn kernel_segment_past_the_image_is_refused() {
    let img = kernel_image(0, &[(1, 0x100, 0xFFFF_FFFF_8000_0000, 0x1000, 0x1000)], 0);
    assert!(load_kernel(&img).is_none());
    assert!(try_load_kernel(&img).unwrap().is_none());
}

#[test]
fn not_a_kernel_image() {
    assert_eq!(try_load_kernel(b"not an elf").map(|r| r.is_none()), Some(true));
}
