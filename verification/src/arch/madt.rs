//! Reading ACPI tables from their bytes: table headers, the XSDT's list of
//! table addresses, and the MADT's interrupt-controller entries.

use vstd::prelude::*;
use crate::arch::sys_desc::{
    byte_sum, AcpiSdtHeader, ApicInfo, IoApic, IoApicIntSourceOverride, MadtEntryHeader, SdtRef, SystemDescriptors,
};

verus! {

/// The size of an ACPI table header.
pub const SDT_HEADER_SIZE: usize = 36;

/// Where the MADT's entries start: after its header, the local APIC address
/// and the flags.
pub const MADT_ENTRIES_OFFSET: usize = 44;

/// The little-endian u16 at `i`.
pub open spec fn le16(b: Seq<u8>, i: int) -> u16 {
    (b[i] + 256 * b[i + 1]) as u16
}

/// The little-endian u32 at `i`.
pub open spec fn le32(b: Seq<u8>, i: int) -> u32 {
    (le16(b, i) + 65536 * le16(b, i + 2)) as u32
}

/// The little-endian u64 at `i`.
pub open spec fn le64(b: Seq<u8>, i: int) -> u64 {
    (le32(b, i) + 0x1_0000_0000 * le32(b, i + 4)) as u64
}

fn read_le16(b: &[u8], i: usize) -> (r: u16)
    requires
        i + 2 <= b@.len(),
    ensures
        r == le16(b@, i as int),
{
    b[i] as u16 + (b[i + 1] as u16) * 256
}

fn read_le32(b: &[u8], i: usize) -> (r: u32)
    requires
        i + 4 <= b@.len(),
    ensures
        r == le32(b@, i as int),
{
    let _n = b.len();
    read_le16(b, i) as u32 + (read_le16(b, i + 2) as u32) * 65536
}

fn read_le64(b: &[u8], i: usize) -> (r: u64)
    requires
        i + 8 <= b@.len(),
    ensures
        r == le64(b@, i as int),
{
    let _n = b.len();
    read_le32(b, i) as u64 + (read_le32(b, i + 4) as u64) * 0x1_0000_0000
}

/// The four bytes "APIC".
pub open spec fn apic_sig() -> Seq<u8> {
    seq![0x41u8, 0x50u8, 0x49u8, 0x43u8]
}

/// The four bytes "XSDT".
pub open spec fn xsdt_sig() -> Seq<u8> {
    seq![0x58u8, 0x53u8, 0x44u8, 0x54u8]
}

fn sig_is(sig: &[u8; 4], a: u8, b: u8, c: u8, d: u8) -> (r: bool)
    ensures
        r == (sig@ == seq![a, b, c, d]),
{
    let r = sig[0] == a && sig[1] == b && sig[2] == c && sig[3] == d;
    if r {
        assert(sig@ =~= seq![a, b, c, d]);
    } else {
        assert(sig@ != seq![a, b, c, d]) by {
            if sig@ == seq![a, b, c, d] {
                assert(sig@[0] == a && sig@[1] == b && sig@[2] == c && sig@[3] == d);
            }
        }
    }
    r
}

impl AcpiSdtHeader {
    /// The header laid out in the first 36 bytes of `b`.
    pub fn from_bytes(b: &[u8]) -> (r: AcpiSdtHeader)
        requires
            b@.len() >= SDT_HEADER_SIZE,
        ensures
            r.signature@ == b@.subrange(0, 4),
            r.length == le32(b@, 4),
            r.revision == b@[8],
            r.cheksum == b@[9],
            r.oem_id@ == b@.subrange(10, 16),
            r.oem_table_id@ == b@.subrange(16, 24),
            r.oem_revision == le32(b@, 24),
            r.creator_id == le32(b@, 28),
            r.creater_revision == le32(b@, 32),
    {
        let r = AcpiSdtHeader {
            signature: [b[0], b[1], b[2], b[3]],
            length: read_le32(b, 4),
            revision: b[8],
            cheksum: b[9],
            oem_id: [b[10], b[11], b[12], b[13], b[14], b[15]],
            oem_table_id: [b[16], b[17], b[18], b[19], b[20], b[21], b[22], b[23]],
            oem_revision: read_le32(b, 24),
            creator_id: read_le32(b, 28),
            creater_revision: read_le32(b, 32),
        };
        assert(r.signature@ =~= b@.subrange(0, 4));
        assert(r.oem_id@ =~= b@.subrange(10, 16));
        assert(r.oem_table_id@ =~= b@.subrange(16, 24));
        r
    }
}

// ---------------------------------------------------------------------------
// The XSDT.

/// The table addresses an XSDT lists: the u64s after its header.
pub open spec fn xsdt_addrs(table: Seq<u8>) -> Seq<u64> {
    Seq::new(
        ((table.len() - SDT_HEADER_SIZE) / 8) as nat,
        |i: int| le64(table, SDT_HEADER_SIZE + 8 * i),
    )
}

/// The first table in `refs` whose signature is "APIC".
pub open spec fn first_madt(refs: Seq<SdtRef>) -> Option<SdtRef>
    decreases refs.len(),
{
    if refs.len() == 0 {
        None
    } else if refs[0].hdr.signature@ == apic_sig() {
        Some(refs[0])
    } else {
        first_madt(refs.drop_first())
    }
}

// ---------------------------------------------------------------------------
// The MADT.

/// What the walk over the MADT's entries has gathered.
pub struct MadtView {
    pub ioapics: Seq<IoApic>,
    pub isos: Seq<IoApicIntSourceOverride>,
    pub lapic: Option<u64>,
}

/// The I/O APIC entry at `p`.
pub open spec fn ioapic_at(b: Seq<u8>, p: int) -> IoApic {
    IoApic {
        hdr: MadtEntryHeader { entry_type: b[p], length: b[p + 1] },
        proc_id: b[p + 2],
        reserved: b[p + 3],
        addr: le32(b, p + 4),
        global_sys_int_base: le32(b, p + 8),
    }
}

/// The interrupt source override entry at `p`.
pub open spec fn iso_at(b: Seq<u8>, p: int) -> IoApicIntSourceOverride {
    IoApicIntSourceOverride {
        hdr: MadtEntryHeader { entry_type: b[p], length: b[p + 1] },
        bus_src: b[p + 2],
        irq_src: b[p + 3],
        global_sys_interrupt: le32(b, p + 4),
        flags: le16(b, p + 8),
    }
}

/// The bytes read for an entry of type `t`: its kind's structure, or its
/// two-byte header for a kind that is not kept.
pub open spec fn entry_read_size(t: u8) -> int {
    if t == 1 {
        12
    } else if t == 2 {
        10
    } else if t == 5 {
        12
    } else {
        2
    }
}

/// Walking the entries from `p`: each gives its type and length; a length
/// below 2 or past the end stops the walk; I/O APICs and source overrides are
/// gathered, a local APIC address override is kept (the last one wins).
pub open spec fn madt_walk(b: Seq<u8>, p: int, st: MadtView) -> MadtView
    decreases b.len() - p,
{
    if p < 0 || p + 1 >= b.len() {
        st
    } else {
        let len = b[p + 1] as int;
        if len < 2 || p + len > b.len() {
            st
        } else {
            let t = b[p];
            let st2 = if t == 1 {
                MadtView { ioapics: st.ioapics.push(ioapic_at(b, p)), ..st }
            } else if t == 2 {
                MadtView { isos: st.isos.push(iso_at(b, p)), ..st }
            } else if t == 5 {
                MadtView { lapic: Some(le64(b, p + 4)), ..st }
            } else {
                st
            };
            madt_walk(b, p + len, st2)
        }
    }
}

/// Every entry the walk from `p` reads lies inside the table.
pub open spec fn madt_reads_ok(b: Seq<u8>, p: int) -> bool
    decreases b.len() - p,
{
    if p < 0 || p >= b.len() {
        true
    } else if p + 1 >= b.len() {
        false
    } else {
        let len = b[p + 1] as int;
        if len < 2 || p + len > b.len() {
            true
        } else {
            p + entry_read_size(b[p]) <= b.len() && madt_reads_ok(b, p + len)
        }
    }
}

/// The walk's start: nothing gathered.
pub open spec fn madt_empty() -> MadtView {
    MadtView { ioapics: Seq::empty(), isos: Seq::empty(), lapic: None }
}

impl ApicInfo {
    pub open spec fn view_parts(&self) -> MadtView {
        MadtView { ioapics: self.ioapics@, isos: self.isos@, lapic: self.lapic_addr_override }
    }
}

impl SystemDescriptors {
    /// The addresses of the tables an XSDT lists (`hdr` its header, `table`
    /// all its bytes).
    pub fn xsdt_entry_addrs(hdr: &AcpiSdtHeader, table: &[u8]) -> (r: Vec<u64>)
        requires
            hdr.signature@ == xsdt_sig(),
            table@.len() == hdr.length,
            hdr.length >= SDT_HEADER_SIZE,
            (hdr.length - SDT_HEADER_SIZE) % 8 == 0,
        ensures
            r@ == xsdt_addrs(table@),
    {
        let total = table.len();
        let count = (total - SDT_HEADER_SIZE) / 8;
        let mut out: Vec<u64> = Vec::new();
        let mut i: usize = 0;
        while i < count
            invariant
                i <= count,
                count == (table@.len() - SDT_HEADER_SIZE) / 8,
                total == table@.len(),
                total >= SDT_HEADER_SIZE,
                out@ =~= xsdt_addrs(table@).subrange(0, i as int),
            decreases count - i,
        {
            assert(SDT_HEADER_SIZE + 8 * i + 8 <= total);
            let a = read_le64(table, SDT_HEADER_SIZE + 8 * i);
            out.push(a);
            i = i + 1;
        }
        assert(xsdt_addrs(table@).subrange(0, count as int) =~= xsdt_addrs(table@));
        out
    }

    /// The first listed table whose signature is "APIC".
    pub fn madt_ref(&self) -> (r: Option<SdtRef>)
        ensures
            r == first_madt(self.xsdt_headers@),
    {
        let ghost s = self.xsdt_headers@;
        let mut i: usize = 0;
        assert(s.skip(0) =~= s);
        while i < self.xsdt_headers.len()
            invariant
                i <= s.len(),
                s == self.xsdt_headers@,
                first_madt(s) == first_madt(s.skip(i as int)),
            decreases s.len() - i,
        {
            assert(s.skip(i as int)[0] == s[i as int]);
            assert(s.skip(i as int).drop_first() =~= s.skip(i + 1));
            let x = self.xsdt_headers[i];
            if sig_is(&x.hdr.signature, 0x41, 0x50, 0x49, 0x43) {
                return Some(x);
            }
            i = i + 1;
        }
        assert(s.skip(i as int) =~= Seq::<SdtRef>::empty());
        None
    }

    /// The interrupt-controller information of a MADT (`hdr` its header,
    /// `table` all its bytes): none where the signature is not "APIC", else
    /// what the walk over its entries gathers.
    pub fn parse_apic_info(hdr: &AcpiSdtHeader, table: &[u8]) -> (r: Option<ApicInfo>)
        requires
            table@.len() == hdr.length,
            hdr.signature@ == apic_sig() ==> byte_sum(table@) == 0 && madt_reads_ok(
                table@,
                MADT_ENTRIES_OFFSET as int,
            ),
        ensures
            hdr.signature@ != apic_sig() ==> r is None,
            hdr.signature@ == apic_sig() ==> r is Some && r->Some_0.view_parts() == madt_walk(
                table@,
                MADT_ENTRIES_OFFSET as int,
                madt_empty(),
            ),
    {
        if !sig_is(&hdr.signature, 0x41, 0x50, 0x49, 0x43) {
            return None;
        }
        let mut info = ApicInfo { ioapics: Vec::new(), isos: Vec::new(), lapic_addr_override: None };
        let ghost b = table@;
        let end = table.len();
        let mut p: usize = MADT_ENTRIES_OFFSET;
        assert(info.view_parts() =~= madt_empty());
        while p < end
            invariant_except_break
                madt_walk(b, MADT_ENTRIES_OFFSET as int, madt_empty()) == madt_walk(b, p as int, info.view_parts()),
                madt_reads_ok(b, p as int),
            invariant
                b == table@,
                end == b.len(),
            ensures
                madt_walk(b, MADT_ENTRIES_OFFSET as int, madt_empty()) == info.view_parts(),
            decreases end - p,
        {
            let len = table[p + 1] as usize;
            if len < 2 || len > end - p {
                break;
            }
            let t = table[p];
            if t == 1 {
                let e = IoApic {
                    hdr: MadtEntryHeader { entry_type: t, length: table[p + 1] },
                    proc_id: table[p + 2],
                    reserved: table[p + 3],
                    addr: read_le32(table, p + 4),
                    global_sys_int_base: read_le32(table, p + 8),
                };
                info.ioapics.push(e);
            } else if t == 2 {
                let e = IoApicIntSourceOverride {
                    hdr: MadtEntryHeader { entry_type: t, length: table[p + 1] },
                    bus_src: table[p + 2],
                    irq_src: table[p + 3],
                    global_sys_interrupt: read_le32(table, p + 4),
                    flags: read_le16(table, p + 8),
                };
                info.isos.push(e);
            } else if t == 5 {
                info.lapic_addr_override = Some(read_le64(table, p + 4));
            }
            p = p + len;
        }
        Some(info)
    }
}

} // verus!
