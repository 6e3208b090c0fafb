use ros::arch::ioapic::{find_ioapic_for_gsi, max_redirection_entry, redirect_entry, ticks_per_ms};
use ros::boot::{calc_identity_limit, convert_type, region_of};
use ros::shared::{MemoryRegion, MemoryRegionKind};
use ros::arch::madt::{MADT_ENTRIES_OFFSET, SDT_HEADER_SIZE};
use ros::arch::pci::{GenHeader, PCI};
use ros::arch::pci_ids::hex_lower;
use ros::arch::percpu::{set_kernel_rsp, PerCpu};
use ros::arch::sys_desc::{
    checksum8, checksum_ok, validate_rsdp_v1, validate_rsdp_v2, AcpiSdtHeader, ApicInfo, IoApicIntSourceOverride,
    MadtEntryHeader, SdtRef, SystemDescriptors,
};
use ros::kernel_cmds::{sleep_target, uptime_ms};

const IDS: &str = "# pci.ids sample\n\
8086  Intel Corporation\n\
\t1237  440FX - 82441FX PMC [Natoma]\n\
\t100e  82540EM Gigabit Ethernet Controller\n\
\t\t8086 001e  PRO/1000 MT Desktop Adapter\n\
1234  QEMU\n\
\t1111  QEMU Virtual Video Controller \r\n\
10ec  Realtek\n";

#[test]
fn lookup_device_finds_vendor_and_device() {
    let r = PCI::lookup_device(IDS.as_bytes(), 0x8086, 0x100e);
    assert_eq!(r, Some((b"Intel Corporation".to_vec(), b"82540EM Gigabit Ethernet Controller".to_vec())));
}

#[test]
fn lookup_device_trims_name_and_carriage_return() {
    let r = PCI::lookup_device(IDS.as_bytes(), 0x1234, 0x1111);
    assert_eq!(r, Some((b"QEMU".to_vec(), b"QEMU Virtual Video Controller".to_vec())));
}

#[test]
fn lookup_device_name_ending_in_double_space_is_empty() {
    let ids = b"1af4  Red Hat, Inc.\n\t1000  Virtio network device  \n";
    assert_eq!(PCI::lookup_device(ids, 0x1af4, 0x1000), None);
}

#[test]
fn lookup_device_unknown_gives_none() {
    assert_eq!(PCI::lookup_device(IDS.as_bytes(), 0x10ec, 0x8139), None);
    assert_eq!(PCI::lookup_device(IDS.as_bytes(), 0xabcd, 0x1237), None);
    assert_eq!(PCI::lookup_device(b"", 0x8086, 0x1237), None);
}

#[test]
fn lookup_device_searches_past_the_vendor_block() {
    // the device id is matched on any later one-tab line once the vendor was seen
    let r = PCI::lookup_device(IDS.as_bytes(), 0x8086, 0x1111);
    assert_eq!(r, Some((b"Intel Corporation".to_vec(), b"QEMU Virtual Video Controller".to_vec())));
}

#[test]
fn hex_is_lower_case_without_leading_zeros() {
    assert_eq!(hex_lower(0x8086), b"8086".to_vec());
    assert_eq!(hex_lower(0x0abc), b"abc".to_vec());
    assert_eq!(hex_lower(0), b"0".to_vec());
}

fn config(vendor: u16, device: u16, header_type: u8) -> Vec<u32> {
    let mut cfg = vec![0u32; 16];
    cfg[0] = (vendor as u32) | ((device as u32) << 16);
    cfg[1] = 0x0010_0007;
    cfg[2] = 0x0200_0003;
    cfg[3] = ((header_type as u32) << 16) | 0x0000_4008;
    cfg[4] = 0xfeb8_0000;
    cfg[11] = 0x1100_1af4;
    cfg[13] = 0x0000_00dc;
    cfg[15] = 0x0403_010b;
    cfg
}

#[test]
fn add_function_builds_device() {
    let mut pci = PCI { devices: Vec::new() };
    assert!(pci.add_function(&config(0x8086, 0x100e, 0), IDS.as_bytes()));
    assert_eq!(pci.devices.len(), 1);
    let d = &pci.devices[0];
    assert_eq!(d.vendor_id, 0x8086);
    assert_eq!(d.device_id, 0x100e);
    assert_eq!(d.command, 0x0007);
    assert_eq!(d.status, 0x0010);
    assert_eq!(d.rev_id, 0x03);
    assert_eq!(d.prog_if, 0x00);
    assert_eq!(d.cache_line_size, 0x08);
    assert_eq!(d.latency_timer, 0x40);
    assert_eq!(d.header_type, 0);
    assert_eq!(d.vendor_name, b"Intel Corporation".to_vec());
    let h = d.gen_header;
    assert_eq!(h.bar0, 0xfeb8_0000);
    assert_eq!(h.subsys_vndr_id, 0x1af4);
    assert_eq!(h.subsys_id, 0x1100);
    assert_eq!(h.capa_ptr, 0xdc);
    assert_eq!(h.intrpt_line, 0x0b);
    assert_eq!(h.intrpt_pin, 0x01);
    assert_eq!(h.min_grant, 0x03);
    assert_eq!(h.max_lat, 0x04);
}

#[test]
fn add_function_other_header_type_keeps_zero_header() {
    let mut pci = PCI { devices: Vec::new() };
    assert!(pci.add_function(&config(0x8086, 0x1237, 1), IDS.as_bytes()));
    assert_eq!(pci.devices[0].header_type, 1);
    assert_eq!(pci.devices[0].gen_header, GenHeader::default());
}

#[test]
fn add_function_skips_absent_and_unknown() {
    let mut pci = PCI { devices: Vec::new() };
    assert!(!pci.add_function(&config(0xffff, 0xffff, 0), IDS.as_bytes()));
    assert!(!pci.add_function(&config(0x10ec, 0x8139, 0), IDS.as_bytes()));
    assert!(pci.devices.is_empty());
}

#[test]
fn config_address_and_word() {
    assert_eq!(PCI::config_address(0, 3, 0, 0x0e), 0x8000_180c);
    assert_eq!(PCI::config_address(1, 0, 2, 0x10), 0x8001_0210);
    assert_eq!(PCI::word_in_dword(0x1234_5678, 0), 0x5678);
    assert_eq!(PCI::word_in_dword(0x1234_5678, 2), 0x1234);
    assert_eq!(PCI::get_class_id(0x0c03), 0x0c00);
    assert_eq!(PCI::get_sub_class_id(0x0c03), 0x0003);
    assert_eq!(PCI::get_bist(0x8000), 0x80);
}

#[test]
fn checksum_sums_bytes_wrapping() {
    assert_eq!(checksum8(&[0x10, 0xf0, 0x05]), 0x05);
    assert!(checksum_ok(&[0x10, 0xf0]));
    assert!(!checksum_ok(&[1]));
}

fn rsdp() -> Vec<u8> {
    let mut b = vec![0u8; 36];
    b[..8].copy_from_slice(b"RSD PTR ");
    b[15] = 2;
    b[20] = 36;
    let s1 = checksum8(&b[..20]);
    b[8] = 0u8.wrapping_sub(s1);
    let s2 = checksum8(&b);
    b[32] = 0u8.wrapping_sub(s2);
    b
}

#[test]
fn rsdp_checksums() {
    let b = rsdp();
    assert!(validate_rsdp_v1(&b));
    assert!(validate_rsdp_v2(&b, 36));
    let mut bad = b.clone();
    bad[33] = 1;
    assert!(validate_rsdp_v1(&bad));
    assert!(!validate_rsdp_v2(&bad, 36));
    bad[3] ^= 1;
    assert!(!validate_rsdp_v2(&bad, 36));
}

fn sdt(sig: &[u8; 4], body: &[u8]) -> Vec<u8> {
    let len = 36 + body.len();
    let mut b = vec![0u8; 36];
    b[..4].copy_from_slice(sig);
    b[4..8].copy_from_slice(&(len as u32).to_le_bytes());
    b[8] = 1;
    b[10..16].copy_from_slice(b"BOCHS ");
    b.extend_from_slice(body);
    let s = checksum8(&b);
    b[9] = 0u8.wrapping_sub(s);
    b
}

#[test]
fn sdt_header_from_bytes() {
    let t = sdt(b"XSDT", &[0u8; 16]);
    let h = AcpiSdtHeader::from_bytes(&t);
    assert_eq!(&h.signature, b"XSDT");
    assert_eq!(h.length, 52);
    assert_eq!(h.revision, 1);
    assert_eq!(&h.oem_id, b"BOCHS ");
    assert!(checksum_ok(&t));
}

#[test]
fn xsdt_lists_table_addresses() {
    let mut body = Vec::new();
    body.extend_from_slice(&0x7fe1_4a2bu64.to_le_bytes());
    body.extend_from_slice(&0x1_0000_2000u64.to_le_bytes());
    let t = sdt(b"XSDT", &body);
    let h = AcpiSdtHeader::from_bytes(&t);
    assert_eq!(SystemDescriptors::xsdt_entry_addrs(&h, &t), vec![0x7fe1_4a2b, 0x1_0000_2000]);
    assert_eq!(SDT_HEADER_SIZE, 36);
}

fn madt_body() -> Vec<u8> {
    let mut body = Vec::new();
    body.extend_from_slice(&0xfee0_0000u32.to_le_bytes());
    body.extend_from_slice(&1u32.to_le_bytes());
    // local APIC (type 0, skipped)
    body.extend_from_slice(&[0, 8, 0, 0, 1, 0, 0, 0]);
    // I/O APIC (type 1)
    body.extend_from_slice(&[1, 12, 0, 0]);
    body.extend_from_slice(&0xfec0_0000u32.to_le_bytes());
    body.extend_from_slice(&0u32.to_le_bytes());
    // interrupt source override (type 2): ISA IRQ 0 -> GSI 2
    body.extend_from_slice(&[2, 10, 0, 0]);
    body.extend_from_slice(&2u32.to_le_bytes());
    body.extend_from_slice(&0u16.to_le_bytes());
    // interrupt source override: ISA IRQ 9 -> GSI 9, level, active high
    body.extend_from_slice(&[2, 10, 0, 9]);
    body.extend_from_slice(&9u32.to_le_bytes());
    body.extend_from_slice(&0x000du16.to_le_bytes());
    body
}

#[test]
fn madt_entries_are_gathered() {
    let t = sdt(b"APIC", &madt_body());
    let h = AcpiSdtHeader::from_bytes(&t);
    let info = SystemDescriptors::parse_apic_info(&h, &t).unwrap();
    assert_eq!(info.ioapics.len(), 1);
    assert_eq!(info.ioapics[0].addr, 0xfec0_0000);
    assert_eq!(info.ioapics[0].global_sys_int_base, 0);
    assert_eq!(info.isos.len(), 2);
    assert_eq!(info.isos[0].irq_src, 0);
    assert_eq!(info.isos[0].global_sys_interrupt, 2);
    assert_eq!(info.isos[1].flags, 0x000d);
    assert_eq!(info.lapic_addr_override, None);
    assert_eq!(SystemDescriptors::resolve_isa_irq(&info, 0), (2, 0));
    assert_eq!(SystemDescriptors::resolve_isa_irq(&info, 9), (9, 0x000d));
    assert_eq!(SystemDescriptors::resolve_isa_irq(&info, 1), (1, 0));
    assert_eq!(MADT_ENTRIES_OFFSET, 44);
}

#[test]
fn madt_lapic_override_and_short_entry_stop() {
    let mut body = madt_body();
    body.extend_from_slice(&[5, 12, 0, 0]);
    body.extend_from_slice(&0xfee0_1000u64.to_le_bytes());
    body.extend_from_slice(&[1, 1]);
    let t = sdt(b"APIC", &body);
    let h = AcpiSdtHeader::from_bytes(&t);
    let info = SystemDescriptors::parse_apic_info(&h, &t).unwrap();
    assert_eq!(info.lapic_addr_override, Some(0xfee0_1000));
    assert_eq!(info.ioapics.len(), 1);
}

#[test]
fn madt_wrong_signature_gives_none() {
    let t = sdt(b"FACP", &[0u8; 8]);
    let h = AcpiSdtHeader::from_bytes(&t);
    assert!(SystemDescriptors::parse_apic_info(&h, &t).is_none());
}

#[test]
fn madt_ref_finds_first_apic_table() {
    let facp = AcpiSdtHeader::from_bytes(&sdt(b"FACP", &[]));
    let apic = AcpiSdtHeader::from_bytes(&sdt(b"APIC", &[]));
    let sd = SystemDescriptors {
        xsdt_headers: vec![
            SdtRef { phys_addr: 0x1000, hdr: facp },
            SdtRef { phys_addr: 0x2000, hdr: apic },
            SdtRef { phys_addr: 0x3000, hdr: apic },
        ],
    };
    assert_eq!(sd.madt_ref().map(|r| r.phys_addr), Some(0x2000));
    let none = SystemDescriptors { xsdt_headers: vec![SdtRef { phys_addr: 0x1000, hdr: facp }] };
    assert!(none.madt_ref().is_none());
}

#[test]
fn isa_irq_without_overrides_is_identity() {
    let info = ApicInfo { ioapics: Vec::new(), isos: Vec::new(), lapic_addr_override: None };
    assert_eq!(SystemDescriptors::resolve_isa_irq(&info, 4), (4, 0));
    let other_bus = ApicInfo {
        ioapics: Vec::new(),
        isos: vec![IoApicIntSourceOverride {
            hdr: MadtEntryHeader { entry_type: 2, length: 10 },
            bus_src: 1,
            irq_src: 4,
            global_sys_interrupt: 20,
            flags: 5,
        }],
        lapic_addr_override: None,
    };
    assert_eq!(SystemDescriptors::resolve_isa_irq(&other_bus, 4), (4, 0));
}

#[test]
fn percpu_holds_kernel_stack() {
    let mut p = PerCpu::new();
    assert_eq!(p.kernel_rsp, 0);
    set_kernel_rsp(&mut p, 0xffff_ffff_9010_1000);
    assert_eq!(p.kernel_rsp, 0xffff_ffff_9010_1000);
}

#[test]
fn kernel_uptime_and_sleep() {
    assert_eq!(uptime_ms(2500), 2500);
    assert_eq!(sleep_target(100, 50), 150);
}

#[test]
fn ioapic_routing() {
    assert_eq!(max_redirection_entry(0x0017_0020), 0x17);
    let ioapics = [(0u32, 23u8), (24, 23)];
    assert_eq!(find_ioapic_for_gsi(&ioapics, 1), Some(0));
    assert_eq!(find_ioapic_for_gsi(&ioapics, 23), Some(0));
    assert_eq!(find_ioapic_for_gsi(&ioapics, 24), Some(1));
    assert_eq!(find_ioapic_for_gsi(&ioapics, 48), None);
    assert_eq!(redirect_entry(1, 0, 23, 0x21, 0, 0), (0x12, 0x21, 0));
    assert_eq!(redirect_entry(9, 0, 23, 0x29, 2, 0x000d), (0x22, 0x29 | (1 << 15), 2 << 24));
    assert_eq!(redirect_entry(25, 24, 23, 0x30, 1, 0x000f), (0x12, 0x30 | (1 << 13) | (1 << 15), 1 << 24));
    assert_eq!(ticks_per_ms(0xFFFF_FFFF - 5_000_000), 100_000);
}

#[test]
fn firmware_memory_types_become_regions() {
    assert_eq!(convert_type(7), MemoryRegionKind::Usable);
    assert_eq!(convert_type(3), MemoryRegionKind::EarlyReclaimable);
    assert_eq!(convert_type(14), MemoryRegionKind::EarlyReclaimable);
    assert_eq!(convert_type(9), MemoryRegionKind::AcpiReclaimable);
    assert_eq!(convert_type(2), MemoryRegionKind::LateReclaimable);
    assert_eq!(convert_type(0), MemoryRegionKind::Reserved);
    assert_eq!(convert_type(10), MemoryRegionKind::Reserved);
    let r = region_of(0x10_0000, 16, 7);
    assert_eq!((r.start, r.end, r.kind), (0x10_0000, 0x11_0000, MemoryRegionKind::Usable));
    let regions = [
        region_of(0, 0xA0, 7),
        region_of(0x10_0000, 0x100, 7),
        region_of(0x8000_0000, 0x100, 0),
        region_of(0x20_0000, 0x10, 9),
    ];
    assert_eq!(calc_identity_limit(&regions), 0x21_0000 + 0x200000);
    let none: [MemoryRegion; 0] = [];
    assert_eq!(calc_identity_limit(&none), 0x200000);
}

#[test]
fn pci_init_lists_known_functions_in_scan_order() {
    let functions = vec![
        config(0xffff, 0xffff, 0),
        config(0x8086, 0x1237, 1),
        config(0x10ec, 0x8139, 0),
        config(0x8086, 0x100e, 0),
    ];
    let pci = PCI::pci_init(&functions, IDS.as_bytes());
    assert_eq!(pci.devices.len(), 2);
    assert_eq!(pci.devices[0].device_id, 0x1237);
    assert_eq!(pci.devices[1].device_id, 0x100e);
    assert_eq!(pci.devices[1].gen_header.bar0, 0xfeb8_0000);
}
