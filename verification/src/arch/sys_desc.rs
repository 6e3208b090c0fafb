use vstd::prelude::*;

verus! {

/// ACPI root system description pointer, revision 1.
#[derive(Debug, Clone, Copy)]
pub struct RsdpV1 {
    pub signature: [u8; 8],
    pub checksum: u8,
    pub oemid: [u8; 6],
    pub revision: u8,
    pub rsdt_adress: u32,
}

/// ACPI root system description pointer, revision 2 and later.
#[derive(Debug, Clone, Copy)]
pub struct RsdpV2 {
    pub v1: RsdpV1,
    pub length: u32,
    pub xsdt_address: u64,
    pub extended_checksum: u8,
    pub reserved: [u8; 3],
}

/// The header every ACPI system description table starts with.
#[derive(Debug, Clone, Copy)]
pub struct AcpiSdtHeader {
    pub signature: [u8; 4],
    pub length: u32,
    pub revision: u8,
    pub cheksum: u8,
    pub oem_id: [u8; 6],
    pub oem_table_id: [u8; 8],
    pub oem_revision: u32,
    pub creator_id: u32,
    pub creater_revision: u32,
}

/// A table listed in the XSDT: where it is and its header.
#[derive(Debug, Clone, Copy)]
pub struct SdtRef {
    pub phys_addr: u64,
    pub hdr: AcpiSdtHeader,
}

/// The multiple APIC description table's fixed part.
#[derive(Debug, Clone, Copy)]
pub struct Madt {
    pub hdr: AcpiSdtHeader,
    pub lapic_addr: u32,
    pub flags: u32,
}

/// The type and length that start every MADT entry.
#[derive(Debug, Clone, Copy)]
pub struct MadtEntryHeader {
    pub entry_type: u8,
    pub length: u8,
}

/// MADT entry 0: a processor's local APIC.
#[derive(Debug, Clone, Copy)]
pub struct LapicEntry {
    pub hdr: MadtEntryHeader,
    pub proc_id: u8,
    pub apic_id: u8,
    pub flags: u32,
}

/// MADT entry 1: an I/O APIC.
#[derive(Debug, Clone, Copy)]
pub struct IoApic {
    pub hdr: MadtEntryHeader,
    pub proc_id: u8,
    pub reserved: u8,
    pub addr: u32,
    pub global_sys_int_base: u32,
}

/// MADT entry 2: an interrupt source override.
#[derive(Debug, Clone, Copy)]
pub struct IoApicIntSourceOverride {
    pub hdr: MadtEntryHeader,
    pub bus_src: u8,
    pub irq_src: u8,
    pub global_sys_interrupt: u32,
    pub flags: u16,
}

/// MADT entry 3: an I/O APIC non-maskable interrupt source.
#[derive(Debug, Clone, Copy)]
pub struct IoApicNonMaskableInterruptSource {
    pub hdr: MadtEntryHeader,
    pub nmi_src: u8,
    pub reserved: u8,
    pub flags: u16,
    pub global_system_interrupt: u32,
}

/// MADT entry 4: local APIC non-maskable interrupts.
#[derive(Debug, Clone, Copy)]
pub struct LapicNonMaskableInterrupts {
    pub hdr: MadtEntryHeader,
    pub proc_id: u8,
    pub flags: u16,
    pub lint: u8,
}

/// MADT entry 5: a 64-bit local APIC address.
#[derive(Debug, Clone, Copy)]
pub struct LapicAdressOverride {
    pub hdr: MadtEntryHeader,
    pub reserved: u16,
    pub lapic_addr: u64,
}

/// MADT entry 9: a processor's local x2APIC.
#[derive(Debug, Clone, Copy)]
pub struct LocalxTwoApic {
    pub hdr: MadtEntryHeader,
    pub reserved: u16,
    pub proc_id: u32,
    pub flags: u32,
    pub apic_id: u32,
}

/// What the kernel takes from the MADT: the I/O APICs, the interrupt source
/// overrides and any 64-bit local APIC address.
#[derive(Debug)]
pub struct ApicInfo {
    pub ioapics: Vec<IoApic>,
    pub isos: Vec<IoApicIntSourceOverride>,
    pub lapic_addr_override: Option<u64>,
}

/// The sum of the bytes modulo 256.
pub open spec fn byte_sum(bytes: Seq<u8>) -> nat
    decreases bytes.len(),
{
    if bytes.len() == 0 {
        0
    } else {
        ((byte_sum(bytes.drop_last()) + bytes.last()) % 256) as nat
    }
}

/// The 8-bit sum of the bytes, wrapping.
pub fn checksum8(bytes: &[u8]) -> (r: u8)
    ensures
        r == byte_sum(bytes@),
{
    let mut acc: u8 = 0;
    let mut i: usize = 0;
    while i < bytes.len()
        invariant
            i <= bytes@.len(),
            acc == byte_sum(bytes@.subrange(0, i as int)),
        decreases bytes@.len() - i,
    {
        assert(bytes@.subrange(0, i + 1).drop_last() =~= bytes@.subrange(0, i as int));
        acc = acc.wrapping_add(bytes[i]);
        i = i + 1;
    }
    assert(bytes@.subrange(0, bytes@.len() as int) =~= bytes@);
    acc
}

/// An ACPI structure is valid when its bytes sum to zero modulo 256.
pub fn checksum_ok(bytes: &[u8]) -> (r: bool)
    ensures
        r == (byte_sum(bytes@) == 0),
{
    checksum8(bytes) == 0
}

/// The root pointer's first 20 bytes sum to zero.
pub fn validate_rsdp_v1(rsdp_bytes: &[u8]) -> (r: bool)
    requires
        rsdp_bytes@.len() >= 20,
    ensures
        r == (byte_sum(rsdp_bytes@.subrange(0, 20)) == 0),
{
    let mut v1: Vec<u8> = Vec::new();
    let mut i: usize = 0;
    while i < 20
        invariant
            i <= 20 <= rsdp_bytes@.len(),
            v1@ == rsdp_bytes@.subrange(0, i as int),
        decreases 20 - i,
    {
        v1.push(rsdp_bytes[i]);
        i = i + 1;
        assert(v1@ =~= rsdp_bytes@.subrange(0, i as int));
    }
    checksum_ok(v1.as_slice())
}

/// A revision-2 root pointer: its first 20 bytes sum to zero, and so do all
/// `length` bytes of it.
pub fn validate_rsdp_v2(rsdp_bytes: &[u8], length: u32) -> (r: bool)
    requires
        rsdp_bytes@.len() >= 20,
        rsdp_bytes@.len() >= length,
    ensures
        r == (byte_sum(rsdp_bytes@.subrange(0, 20)) == 0 && byte_sum(rsdp_bytes@.subrange(0, length as int)) == 0),
{
    if !validate_rsdp_v1(rsdp_bytes) {
        return false;
    }
    let mut all: Vec<u8> = Vec::new();
    let n = length as usize;
    let mut i: usize = 0;
    while i < n
        invariant
            i <= n <= rsdp_bytes@.len(),
            n == length,
            all@ == rsdp_bytes@.subrange(0, i as int),
        decreases n - i,
    {
        all.push(rsdp_bytes[i]);
        i = i + 1;
        assert(all@ =~= rsdp_bytes@.subrange(0, i as int));
    }
    checksum_ok(all.as_slice())
}

/// The interrupt and flags that ISA `irq` arrives on: those of the first
/// override from bus 0 for it, else the same number with no flags.
pub open spec fn isa_irq_route(isos: Seq<IoApicIntSourceOverride>, irq: u8) -> (u32, u16)
    decreases isos.len(),
{
    if isos.len() == 0 {
        (irq as u32, 0)
    } else if isos[0].bus_src == 0 && isos[0].irq_src == irq {
        (isos[0].global_sys_interrupt, isos[0].flags)
    } else {
        isa_irq_route(isos.drop_first(), irq)
    }
}

/// The system's ACPI tables, as listed by the XSDT.
pub struct SystemDescriptors {
    pub xsdt_headers: Vec<SdtRef>,
}

impl SystemDescriptors {
    pub fn resolve_isa_irq(info: &ApicInfo, irq: u8) -> (r: (u32, u16))
        ensures
            r == isa_irq_route(info.isos@, irq),
    {
        let ghost s = info.isos@;
        let mut i: usize = 0;
        assert(s.skip(0) =~= s);
        while i < info.isos.len()
            invariant
                i <= s.len(),
                s == info.isos@,
                isa_irq_route(s, irq) == isa_irq_route(s.skip(i as int), irq),
            decreases s.len() - i,
        {
            assert(s.skip(i as int)[0] == s[i as int]);
            assert(s.skip(i as int).drop_first() =~= s.skip(i + 1));
            let x = &info.isos[i];
            if x.bus_src == 0 && x.irq_src == irq {
                return (x.global_sys_interrupt, x.flags);
            }
            i = i + 1;
        }
        assert(s.skip(i as int) =~= Seq::<IoApicIntSourceOverride>::empty());
        (irq as u32, 0)
    }
}

} // verus!
