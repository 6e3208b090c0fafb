use vstd::prelude::*;
use crate::arch::pci_ids::lookup_spec;

verus! {

/// The PCI configuration-space offsets that the device getters read.
pub const VENDOR_ID_OFFSET: u8 = 0x0;
pub const DEVICE_ID_OFFSET: u8 = 0x2;
pub const COMMAND_OFFSET: u8 = 0x4;
pub const STATUS_OFFSET: u8 = 0x6;
pub const REV_PROG_OFFSET: u8 = 0x8;
pub const CLASS_OFFSET: u8 = 0xA;
pub const CACHE_LATENCY_OFFSET: u8 = 0xC;
pub const HEADER_BIST_OFFSET: u8 = 0xE;

/// The devices found on the PCI buses.
#[derive(Debug)]
pub struct PCI {
    pub devices: Vec<PCIDevice>,
}

/// A PCI function: its identification, status and header, with the vendor and
/// device names from the ID database.
#[derive(Debug)]
pub struct PCIDevice {
    pub vendor_id: u16,
    pub device_id: u16,
    pub status: u16,
    pub command: u16,
    pub header_type: u8,
    pub bist: u8,
    pub prog_if: u8,
    pub rev_id: u8,
    pub latency_timer: u8,
    pub cache_line_size: u8,
    pub vendor_name: Vec<u8>,
    pub device_name: Vec<u8>,
    pub gen_header: GenHeader,
}

/// The rest of a general (type 0) configuration header.
#[derive(Debug, Clone, Copy, PartialEq, Eq, Structural)]
pub struct GenHeader {
    pub bar0: u32,
    pub bar1: u32,
    pub bar2: u32,
    pub bar3: u32,
    pub bar4: u32,
    pub bar5: u32,
    pub cb_cis_ptr: u32,
    pub subsys_vndr_id: u16,
    pub subsys_id: u16,
    pub exp_rom_bar: u32,
    pub capa_ptr: u8,
    pub intrpt_line: u8,
    pub intrpt_pin: u8,
    pub min_grant: u8,
    pub max_lat: u8,
}

impl Default for GenHeader {
    /// All fields zero.
    fn default() -> (r: Self)
        ensures
            r == (GenHeader {
                bar0: 0,
                bar1: 0,
                bar2: 0,
                bar3: 0,
                bar4: 0,
                bar5: 0,
                cb_cis_ptr: 0,
                subsys_vndr_id: 0,
                subsys_id: 0,
                exp_rom_bar: 0,
                capa_ptr: 0,
                intrpt_line: 0,
                intrpt_pin: 0,
                min_grant: 0,
                max_lat: 0,
            }),
    {
        GenHeader {
            bar0: 0,
            bar1: 0,
            bar2: 0,
            bar3: 0,
            bar4: 0,
            bar5: 0,
            cb_cis_ptr: 0,
            subsys_vndr_id: 0,
            subsys_id: 0,
            exp_rom_bar: 0,
            capa_ptr: 0,
            intrpt_line: 0,
            intrpt_pin: 0,
            min_grant: 0,
            max_lat: 0,
        }
    }
}

/// The word at `offset` of a function's configuration dwords (`cfg[k]` the
/// dword at `4 * k`): the high half of its dword where bit 1 of the offset is set.
pub open spec fn config_word(cfg: Seq<u32>, offset: int) -> u16 {
    let d = cfg[offset / 4];
    if offset % 4 >= 2 {
        ((d >> 16) & 0xFFFF) as u16
    } else {
        (d & 0xFFFF) as u16
    }
}

/// The general header held by configuration dwords 4 to 15.
pub open spec fn gen_header_of(dw: Seq<u32>) -> GenHeader {
    GenHeader {
        bar0: dw[4],
        bar1: dw[5],
        bar2: dw[6],
        bar3: dw[7],
        bar4: dw[8],
        bar5: dw[9],
        cb_cis_ptr: dw[10],
        subsys_vndr_id: (dw[11] & 0xFFFF) as u16,
        subsys_id: (dw[11] >> 16) as u16,
        exp_rom_bar: dw[12],
        capa_ptr: (dw[13] & 0xFF) as u8,
        intrpt_line: (dw[15] & 0xFF) as u8,
        intrpt_pin: ((dw[15] >> 8) & 0xFF) as u8,
        min_grant: ((dw[15] >> 16) & 0xFF) as u8,
        max_lat: ((dw[15] >> 24) & 0xFF) as u8,
    }
}

/// The all-zero header, kept for functions whose header is not of type 0.
pub open spec fn zero_header() -> GenHeader {
    GenHeader {
        bar0: 0,
        bar1: 0,
        bar2: 0,
        bar3: 0,
        bar4: 0,
        bar5: 0,
        cb_cis_ptr: 0,
        subsys_vndr_id: 0,
        subsys_id: 0,
        exp_rom_bar: 0,
        capa_ptr: 0,
        intrpt_line: 0,
        intrpt_pin: 0,
        min_grant: 0,
        max_lat: 0,
    }
}

/// `d` is the device that configuration dwords `cfg` describe, with names
/// `vname` and `dname`.
pub open spec fn device_of(d: PCIDevice, cfg: Seq<u32>, vname: Seq<u8>, dname: Seq<u8>) -> bool {
    let hb = config_word(cfg, 0xE);
    let rp = config_word(cfg, 0x8);
    let cl = config_word(cfg, 0xC);
    &&& d.vendor_id == config_word(cfg, 0)
    &&& d.device_id == config_word(cfg, 2)
    &&& d.command == config_word(cfg, 4)
    &&& d.status == config_word(cfg, 6)
    &&& d.header_type == hb & 0xFF
    &&& d.bist == hb >> 8
    &&& d.prog_if == rp >> 8
    &&& d.rev_id == rp & 0xFF
    &&& d.latency_timer == cl >> 8
    &&& d.cache_line_size == cl & 0xFF
    &&& d.vendor_name@ == vname
    &&& d.device_name@ == dname
    &&& d.gen_header == (if d.header_type == 0 { gen_header_of(cfg) } else { zero_header() })
}

/// The function whose configuration dwords are `cfg` answers (vendor id not
/// 0xFFFF) and the ID database `ids` names it.
pub open spec fn function_listed(cfg: Seq<u32>, ids: Seq<u8>) -> bool {
    config_word(cfg, 0) != 0xFFFF && lookup_spec(ids, config_word(cfg, 0), config_word(cfg, 2)) is Some
}

/// `d` is the device listed for the function with configuration dwords `cfg`,
/// named from `ids`.
pub open spec fn listed_device(d: PCIDevice, cfg: Seq<u32>, ids: Seq<u8>) -> bool {
    let names = lookup_spec(ids, config_word(cfg, 0), config_word(cfg, 2))->Some_0;
    function_listed(cfg, ids) && device_of(d, cfg, names.0, names.1)
}

/// The positions, in order, of the listed functions among the first `n` scanned.
pub open spec fn listed_positions(cfgs: Seq<Vec<u32>>, ids: Seq<u8>, n: int) -> Seq<int>
    decreases n,
{
    if n <= 0 {
        Seq::empty()
    } else {
        let before = listed_positions(cfgs, ids, n - 1);
        if function_listed(cfgs[n - 1]@, ids) {
            before.push(n - 1)
        } else {
            before
        }
    }
}

impl GenHeader {
    /// The general header from the configuration dwords at 0x10 to 0x3C
    /// (`dw[k]` the dword at `4 * k`).
    pub fn from_config(dw: &[u32]) -> (r: GenHeader)
        requires
            dw@.len() == 16,
        ensures
            r == gen_header_of(dw@),
    {
        let ss = dw[11];
        let il = dw[15];
        let capa = dw[13];
        proof {
            lemma_dword_parts(ss);
            lemma_dword_parts(capa);
            lemma_dword_parts(il);
        }
        GenHeader {
            bar0: dw[4],
            bar1: dw[5],
            bar2: dw[6],
            bar3: dw[7],
            bar4: dw[8],
            bar5: dw[9],
            cb_cis_ptr: dw[10],
            subsys_vndr_id: (ss & 0xFFFF) as u16,
            subsys_id: (ss >> 16) as u16,
            exp_rom_bar: dw[12],
            capa_ptr: (capa & 0xFF) as u8,
            intrpt_line: (il & 0xFF) as u8,
            intrpt_pin: ((il >> 8) & 0xFF) as u8,
            min_grant: ((il >> 16) & 0xFF) as u8,
            max_lat: ((il >> 24) & 0xFF) as u8,
        }
    }
}

proof fn lemma_word_bytes(w: u16)
    by (bit_vector)
    ensures
        w >> 8 < 0x100,
        w & 0xFF < 0x100,
        w & !0x00FFu16 == w & 0xFF00,
        w & !0xFF00u16 == w & 0x00FF,
{
}

proof fn lemma_dword_parts(d: u32)
    by (bit_vector)
    ensures
        d & 0xFFFF < 0x10000,
        d >> 16 < 0x10000,
        (d >> 16) & 0xFFFF < 0x10000,
        d & 0xFF < 0x100,
        (d >> 8) & 0xFF < 0x100,
        (d >> 16) & 0xFF < 0x100,
        (d >> 24) & 0xFF < 0x100,
        d >> 0 == d,
{
}

proof fn lemma_offset_bit(o: u8)
    by (bit_vector)
    ensures
        o & 2 == 0 || o & 2 == 2,
{
}

impl PCI {
    /// The value written to the configuration-address port to read the dword
    /// holding `offset` of function `func` of `slot` on `bus`.
    pub fn config_address(bus: u8, slot: u8, func: u8, offset: u8) -> (r: u32)
        ensures
            r == 0x8000_0000u32 | ((bus as u32) << 16) | ((slot as u32) << 11) | ((func as u32) << 8) | ((offset as u32) & 0xFC),
    {
        0x8000_0000u32 | ((bus as u32) << 16) | ((slot as u32) << 11) | ((func as u32) << 8) | ((offset as u32) & 0xFC)
    }

    /// The 16-bit word at `offset` inside the dword read for it: the high half
    /// when bit 1 of the offset is set.
    pub fn word_in_dword(data: u32, offset: u8) -> (r: u16)
        ensures
            r == (if offset & 2 != 0 { (data >> 16) & 0xFFFF } else { data & 0xFFFF }),
    {
        let shift: u32 = ((offset & 2) as u32) * 8;
        proof {
            lemma_dword_parts(data);
            lemma_offset_bit(offset);
        }
        ((data >> shift) & 0xFFFF) as u16
    }

    /// The vendor id: the word at offset 0.
    pub fn get_vendor_id(r0: u16) -> (r: u16)
        ensures
            r == r0,
    {
        r0
    }

    /// The device id: the word at offset 2.
    pub fn get_device_id(r0: u16) -> (r: u16)
        ensures
            r == r0,
    {
        r0
    }

    /// The command register: the word at offset 4.
    pub fn get_command(r0: u16) -> (r: u16)
        ensures
            r == r0,
    {
        r0
    }

    /// The status register: the word at offset 6.
    pub fn get_status(r0: u16) -> (r: u16)
        ensures
            r == r0,
    {
        r0
    }

    /// The class code: the high byte of the word at offset 0xA, kept in place.
    pub fn get_class_id(r0: u16) -> (r: u16)
        ensures
            r == r0 & 0xFF00,
    {
        proof {
            lemma_word_bytes(r0);
        }
        r0 & !0x00FF
    }

    /// The subclass: the low byte of the word at offset 0xA.
    pub fn get_sub_class_id(r0: u16) -> (r: u16)
        ensures
            r == r0 & 0x00FF,
    {
        proof {
            lemma_word_bytes(r0);
        }
        r0 & !0xFF00
    }

    /// The programming interface: the high byte of the word at offset 8.
    pub fn get_prog_if(r0: u16) -> (r: u8)
        ensures
            r == r0 >> 8,
    {
        proof {
            lemma_word_bytes(r0);
        }
        (r0 >> 8) as u8
    }

    /// The revision: the low byte of the word at offset 8.
    pub fn get_rev_id(r0: u16) -> (r: u8)
        ensures
            r == r0 & 0xFF,
    {
        proof {
            lemma_word_bytes(r0);
        }
        (r0 & 0xFF) as u8
    }

    /// The cache line size: the low byte of the word at offset 0xC.
    pub fn get_cache_line_size(r0: u16) -> (r: u8)
        ensures
            r == r0 & 0xFF,
    {
        proof {
            lemma_word_bytes(r0);
        }
        (r0 & 0xFF) as u8
    }

    /// The latency timer: the high byte of the word at offset 0xC.
    pub fn get_latency_timer(r0: u16) -> (r: u8)
        ensures
            r == r0 >> 8,
    {
        proof {
            lemma_word_bytes(r0);
        }
        (r0 >> 8) as u8
    }

    /// The header type: the low byte of the word at offset 0xE.
    pub fn get_header_type(r0: u16) -> (r: u8)
        ensures
            r == r0 & 0xFF,
    {
        proof {
            lemma_word_bytes(r0);
        }
        (r0 & 0xFF) as u8
    }

    /// The word at `offset` of configuration dwords `cfg`.
    pub fn cfg_word(cfg: &[u32], offset: usize) -> (r: u16)
        requires
            offset < 4 * cfg@.len(),
        ensures
            r == config_word(cfg@, offset as int),
    {
        let d = cfg[offset / 4];
        proof {
            lemma_dword_parts(d);
        }
        if offset % 4 >= 2 {
            ((d >> 16) & 0xFFFF) as u16
        } else {
            (d & 0xFFFF) as u16
        }
    }

    /// One function met while scanning the buses, given by its configuration
    /// dwords `cfg` (`cfg[k]` the dword at `4 * k`): where a device answers
    /// (vendor id not 0xFFFF) and the ID database `ids` names it, it is added
    /// to the list.
    pub fn add_function(&mut self, cfg: &[u32], ids: &[u8]) -> (added: bool)
        requires
            cfg@.len() == 16,
        ensures
            added == (config_word(cfg@, 0) != 0xFFFF && lookup_spec(ids@, config_word(cfg@, 0), config_word(cfg@, 2)) is Some),
            added ==> ({
                let names = lookup_spec(ids@, config_word(cfg@, 0), config_word(cfg@, 2))->Some_0;
                &&& final(self).devices@.len() == old(self).devices@.len() + 1
                &&& final(self).devices@.drop_last() == old(self).devices@
                &&& device_of(final(self).devices@.last(), cfg@, names.0, names.1)
            }),
            !added ==> final(self).devices@ == old(self).devices@,
    {
        let vendor_id = Self::get_vendor_id(Self::cfg_word(cfg, VENDOR_ID_OFFSET as usize));
        if vendor_id == 0xFFFF {
            return false;
        }
        let device_id = Self::get_device_id(Self::cfg_word(cfg, DEVICE_ID_OFFSET as usize));
        let (vendor_name, device_name) = match Self::lookup_device(ids, vendor_id, device_id) {
            Some(v) => v,
            None => return false,
        };
        let hb = Self::cfg_word(cfg, HEADER_BIST_OFFSET as usize);
        let rp = Self::cfg_word(cfg, REV_PROG_OFFSET as usize);
        let cl = Self::cfg_word(cfg, CACHE_LATENCY_OFFSET as usize);
        let header_type = Self::get_header_type(hb);
        let gen_header = if header_type == 0 {
            GenHeader::from_config(cfg)
        } else {
            GenHeader::default()
        };
        let dev = PCIDevice {
            vendor_id,
            device_id,
            vendor_name,
            device_name,
            command: Self::get_command(Self::cfg_word(cfg, COMMAND_OFFSET as usize)),
            status: Self::get_status(Self::cfg_word(cfg, STATUS_OFFSET as usize)),
            header_type,
            bist: Self::get_bist(hb),
            prog_if: Self::get_prog_if(rp),
            rev_id: Self::get_rev_id(rp),
            latency_timer: Self::get_latency_timer(cl),
            cache_line_size: Self::get_cache_line_size(cl),
            gen_header,
        };
        self.devices.push(dev);
        assert(self.devices@.drop_last() =~= old(self).devices@);
        true
    }

    /// The device list from a scan of the buses: `functions` holds each function's
    /// configuration dwords in scan order (bus, then slot, then function number);
    /// each one that answers and that the ID database `ids` names is listed, in
    /// that order.
    pub fn pci_init(functions: &[Vec<u32>], ids: &[u8]) -> (r: PCI)
        requires
            forall|i: int| 0 <= i < functions@.len() ==> (#[trigger] functions@[i])@.len() == 16,
        ensures
            ({
                let ks = listed_positions(functions@, ids@, functions@.len() as int);
                &&& r.devices@.len() == ks.len()
                &&& forall|j: int|
                    0 <= j < ks.len() ==> listed_device(#[trigger] r.devices@[j], functions@[ks[j]]@, ids@)
            }),
    {
        let mut pci = PCI { devices: Vec::new() };
        let mut i: usize = 0;
        while i < functions.len()
            invariant
                i <= functions@.len(),
                forall|k: int| 0 <= k < functions@.len() ==> (#[trigger] functions@[k])@.len() == 16,
                pci.devices@.len() == listed_positions(functions@, ids@, i as int).len(),
                forall|j: int|
                    0 <= j < pci.devices@.len() ==> listed_device(
                        #[trigger] pci.devices@[j],
                        functions@[listed_positions(functions@, ids@, i as int)[j]]@,
                        ids@,
                    ),
            decreases functions@.len() - i,
        {
            let ghost before = pci.devices@;
            let cfg = &functions[i];
            assert(functions@[i as int]@.len() == 16);
            let added = pci.add_function(cfg.as_slice(), ids);
            proof {
                let ks0 = listed_positions(functions@, ids@, i as int);
                let ks1 = listed_positions(functions@, ids@, i as int + 1);
                if added {
                    assert(ks1 == ks0.push(i as int));
                    assert forall|j: int| 0 <= j < pci.devices@.len() implies listed_device(
                        #[trigger] pci.devices@[j],
                        functions@[ks1[j]]@,
                        ids@,
                    ) by {
                        if j < before.len() {
                            assert(pci.devices@[j] == pci.devices@.drop_last()[j]);
                        }
                    }
                } else {
                    assert(ks1 == ks0);
                }
            }
            i = i + 1;
        }
        pci
    }

    /// The built-in self test register: the high byte of the word at offset 0xE.
    pub fn get_bist(r0: u16) -> (r: u8)
        ensures
            r == r0 >> 8,
    {
        proof {
            lemma_word_bytes(r0);
        }
        (r0 >> 8) as u8
    }
}

} // verus!
