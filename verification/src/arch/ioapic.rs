//! I/O APIC routing: which controller serves a global system interrupt and
//! the redirection entry that routes it.

use vstd::prelude::*;

verus! {

/// The index of the highest redirection entry, from the version register:
/// its bits 16 to 23.
pub fn max_redirection_entry(version: u32) -> (r: u8)
    ensures
        r == (version >> 16) & 0xFF,
{
    assert((version >> 16) & 0xFF < 256) by (bit_vector);
    ((version >> 16) & 0xFF) as u8
}

/// The first controller, given as (first interrupt, highest entry) pairs,
/// whose interrupts `gsi_base ..= gsi_base + max` hold `gsi`.
pub open spec fn ioapic_for_gsi(ioapics: Seq<(u32, u8)>, gsi: u32, i: int) -> Option<int>
    decreases ioapics.len() - i,
{
    if i < 0 || i >= ioapics.len() {
        None
    } else if ioapics[i].0 <= gsi <= ioapics[i].0 + ioapics[i].1 {
        Some(i)
    } else {
        ioapic_for_gsi(ioapics, gsi, i + 1)
    }
}

/// The controller that serves interrupt `gsi`, by its index among `ioapics`.
pub fn find_ioapic_for_gsi(ioapics: &[(u32, u8)], gsi: u32) -> (r: Option<usize>)
    requires
        forall|k: int| 0 <= k < ioapics@.len() ==> ioapics@[k].0 + ioapics@[k].1 <= u32::MAX,
    ensures
        match ioapic_for_gsi(ioapics@, gsi, 0) {
            None => r is None,
            Some(i) => r == Some(i as usize),
        },
{
    let mut i: usize = 0;
    while i < ioapics.len()
        invariant
            i <= ioapics@.len(),
            ioapic_for_gsi(ioapics@, gsi, 0) == ioapic_for_gsi(ioapics@, gsi, i as int),
            forall|k: int| 0 <= k < ioapics@.len() ==> ioapics@[k].0 + ioapics@[k].1 <= u32::MAX,
        decreases ioapics@.len() - i,
    {
        let (start, max) = ioapics[i];
        let end = start + max as u32;
        if start <= gsi && gsi <= end {
            return Some(i);
        }
        i = i + 1;
    }
    None
}

/// The redirection register pair and the entry that route interrupt `gsi` of
/// a controller whose first interrupt is `gsi_base` to `vector` on the local
/// APIC `dest`: fixed delivery, physical destination, unmasked; active low
/// where the polarity bits of `flags` are 3, level-triggered where its trigger
/// bits are 3; the destination in the high dword's top byte. Returns the
/// register of the low dword, the low dword and the high dword.
pub fn redirect_entry(gsi: u32, gsi_base: u32, max: u8, vector: u8, dest: u8, flags: u16) -> (r: (u8, u32, u32))
    requires
        gsi_base <= gsi,
        gsi - gsi_base <= max,
        0x10 + 2 * (gsi - gsi_base) + 1 <= 0xFF,
    ensures
        r.0 == 0x10 + 2 * (gsi - gsi_base),
        r.1 == vector as u32 | (if flags & 3 == 3 { 1u32 << 13u32 } else { 0 }) | (if (flags >> 2) & 3 == 3 {
            1u32 << 15u32
        } else {
            0
        }),
        r.2 == (dest as u32) << 24u32,
{
    let idx = gsi - gsi_base;
    let pol = flags & 0b11;
    let trg = (flags >> 2) & 0b11;
    let active_low = pol == 0b11;
    let level_triggered = trg == 0b11;
    let mut low: u32 = vector as u32;
    if active_low {
        low = low | (1u32 << 13u32);
    }
    if level_triggered {
        low = low | (1u32 << 15u32);
    }
    assert(low == vector as u32 | (if flags & 3 == 3 { 1u32 << 13u32 } else { 0 }) | (if (flags >> 2) & 3 == 3 {
        1u32 << 15u32
    } else {
        0
    })) by (bit_vector)
        requires
            pol == flags & 3,
            trg == (flags >> 2) & 3,
            active_low == (pol == 3),
            level_triggered == (trg == 3),
            low == (if level_triggered { (if active_low { vector as u32 | (1u32 << 13u32) } else { vector as u32 }) | (1u32 << 15u32) } else { if active_low { vector as u32 | (1u32 << 13u32) } else { vector as u32 } }),
    ;
    let high: u32 = (dest as u32) << 24u32;
    let reg = 0x10u8 + (idx as u8) * 2;
    (reg, low, high)
}

/// The local APIC timer's ticks per millisecond, from the count left after a
/// 50 ms wait from the largest start value.
pub fn ticks_per_ms(current_count: u32) -> (r: u32)
    ensures
        r == (0xFFFF_FFFFu32 - current_count) / 50,
{
    let elapsed = 0xFFFF_FFFFu32 - current_count;
    elapsed / 50
}

} // verus!
