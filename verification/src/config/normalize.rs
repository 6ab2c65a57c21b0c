//! Rules that keep a memory map consistent as it is edited: banks follow
//! the bootloader and each other without gaps, stay within their flash
//! chip, and the bootable bank is never the golden one.

use vstd::prelude::*;
use crate::config::memory::{external_flash, Bank, ExternalMemoryMap, FlashChip, InternalMemoryMap};
use crate::config::port::{Port, KB};

verus! {

/// Each bank starts where the one before it ends.
pub open spec fn contiguous(s: Seq<Bank>) -> bool {
    forall|k: int| 0 <= k < s.len() - 1 ==> #[trigger] s[k + 1].start_address == s[k].spec_end()
}

/// Total size in bytes of the first `n` banks.
pub open spec fn size_before(s: Seq<Bank>, n: int) -> int
    decreases n,
{
    if n <= 0 {
        0
    } else {
        size_before(s, n - 1) + s[n - 1].size_kb * 1024
    }
}

/// Laid out one after the other from `start`, the banks of `s` end within
/// the address space.
pub open spec fn chain_fits(s: Seq<Bank>, start: int) -> bool {
    start + size_before(s, s.len() as int) <= u32::MAX
}

/// The banks that end before `end`.
pub open spec fn within(s: Seq<Bank>, end: u32) -> Seq<Bank> {
    s.filter(|b: Bank| b.spec_end() < end)
}

/// `x` clamped to `[low, high]`.
pub open spec fn clamp(x: u32, low: u32, high: u32) -> u32 {
    if x < low {
        low
    } else if x > high {
        high
    } else {
        x
    }
}

/// Where the bootloader ends, once its location is clamped into the chip.
pub open spec fn bootloader_end(m: InternalMemoryMap, chip: FlashChip) -> int {
    clamp(m.bootloader_location, chip.start, chip.end) + 1024 * m.bootloader_length_kb
}

/// Offset from the chip's start of the first region boundary at or after
/// the bootloader's end.
pub open spec fn aligned_offset(m: InternalMemoryMap, chip: FlashChip) -> int {
    let offset = if bootloader_end(m, chip) >= chip.start { bootloader_end(m, chip) - chip.start } else { 0 };
    if offset % (chip.region_size as int) == 0 {
        offset
    } else {
        offset + (chip.region_size - offset % (chip.region_size as int))
    }
}

/// Where the first bank goes: the first region boundary after the bootloader.
pub open spec fn first_bank_start(m: InternalMemoryMap, chip: FlashChip) -> int {
    chip.start + aligned_offset(m, chip)
}

/// The arithmetic of placing the first bank after the bootloader fits in
/// 32 bits, and the chip has a region size and a sensible range.
pub open spec fn follow_fits(m: InternalMemoryMap, chip: FlashChip) -> bool {
    &&& chip.start <= chip.end
    &&& chip.region_size > 0
    &&& bootloader_end(m, chip) <= u32::MAX
    &&& first_bank_start(m, chip) <= u32::MAX
}

/// Makes the golden bank `None` when it is the bootable bank.
pub fn enforce_bootable_bank_not_golden(golden_index: &mut Option<usize>, internal_memory_map: &InternalMemoryMap)
    ensures
        *final(golden_index) == if *old(golden_index) == internal_memory_map.bootable_index { None } else { *old(golden_index) },
{
    if *golden_index == internal_memory_map.bootable_index {
        *golden_index = None;
    }
}

/// Clamps the bootloader into the chip and moves the first bank to the
/// first erase region boundary after the bootloader's end.
pub fn enforce_internal_banks_follow_bootloader(internal_memory_map: &mut InternalMemoryMap, internal_flash: &FlashChip)
    requires
        old(internal_memory_map).banks@.len() > 0 ==> follow_fits(*old(internal_memory_map), *internal_flash),
    ensures
        final(internal_memory_map).bootloader_length_kb == old(internal_memory_map).bootloader_length_kb,
        final(internal_memory_map).bootable_index == old(internal_memory_map).bootable_index,
        old(internal_memory_map).banks@.len() == 0 ==> *final(internal_memory_map) == *old(internal_memory_map),
        old(internal_memory_map).banks@.len() > 0 ==> {
            &&& final(internal_memory_map).bootloader_location == clamp(
                old(internal_memory_map).bootloader_location,
                internal_flash.start,
                internal_flash.end,
            )
            &&& final(internal_memory_map).banks@ == old(internal_memory_map).banks@.update(
                0,
                Bank {
                    start_address: first_bank_start(*old(internal_memory_map), *internal_flash) as u32,
                    size_kb: old(internal_memory_map).banks@[0].size_kb,
                },
            )
            &&& (final(internal_memory_map).banks@[0].start_address - internal_flash.start) % (internal_flash.region_size as int) == 0
            &&& final(internal_memory_map).banks@[0].start_address >= bootloader_end(*old(internal_memory_map), *internal_flash)
        },
{
    if internal_memory_map.banks.len() > 0 {
        let ghost m0 = *internal_memory_map;
        let start = internal_flash.start;
        let end = internal_flash.end;
        let location = internal_memory_map.bootloader_location;
        internal_memory_map.bootloader_location = if location < start {
            start
        } else if location > end {
            end
        } else {
            location
        };
        let bootloader_end = internal_memory_map.bootloader_location + KB * internal_memory_map.bootloader_length_kb;
        let offset = if bootloader_end >= start { bootloader_end - start } else { 0 };
        let modulo = offset % internal_flash.region_size;
        let aligned = if modulo == 0 {
            offset
        } else {
            offset + (internal_flash.region_size - modulo)
        };
        proof {
            let r = internal_flash.region_size as int;
            assert(aligned == aligned_offset(m0, *internal_flash));
            if modulo != 0 {
                let o = offset as int;
                let md = modulo as int;
                let q = o / r;
                vstd::arithmetic::div_mod::lemma_fundamental_div_mod(o, r);
                assert(o + (r - md) == (q + 1) * r) by (nonlinear_arith)
                    requires
                        o == r * q + md,
                ;
                vstd::arithmetic::div_mod::lemma_mod_multiples_basic(q + 1, r);
            }
        }
        let start_of_banks = start + aligned;
        let size_kb = internal_memory_map.banks[0].size_kb;
        internal_memory_map.banks.set(0, Bank { start_address: start_of_banks, size_kb });
    }
}

/// Moves every bank but the first to where the one before it ends.
fn make_contiguous(banks: &mut Vec<Bank>)
    requires
        old(banks)@.len() > 0 ==> chain_fits(old(banks)@, old(banks)@[0].start_address as int),
    ensures
        final(banks)@.len() == old(banks)@.len(),
        contiguous(final(banks)@),
        forall|k: int| 0 <= k < final(banks)@.len() ==> #[trigger] final(banks)@[k].size_kb == old(banks)@[k].size_kb,
        forall|k: int| 0 <= k < final(banks)@.len() ==> #[trigger] final(banks)@[k].start_address
            == old(banks)@[0].start_address + size_before(old(banks)@, k),
{
    let ghost b0 = banks@;
    if banks.len() <= 1 {
        return;
    }
    let mut i: usize = 0;
    while i < banks.len() - 1
        invariant
            banks@.len() == b0.len(),
            b0.len() > 1,
            i + 1 <= b0.len(),
            chain_fits(b0, b0[0].start_address as int),
            forall|k: int| 0 <= k < b0.len() ==> #[trigger] banks@[k].size_kb == b0[k].size_kb,
            forall|k: int| 0 <= k <= i ==> #[trigger] banks@[k].start_address == b0[0].start_address + size_before(b0, k),
            forall|k: int| i < k < b0.len() ==> #[trigger] banks@[k] == b0[k],
            forall|k: int| 0 <= k < i ==> #[trigger] banks@[k + 1].start_address == banks@[k].spec_end(),
        decreases b0.len() - i,
    {
        proof {
            lemma_size_before_grows(b0, i + 1, b0.len() as int);
        }
        let end = banks[i].end_address();
        let size_kb = banks[i + 1].size_kb;
        banks.set(i + 1, Bank { start_address: end, size_kb });
        i = i + 1;
    }
}

/// Sizes only add up.
proof fn lemma_size_before_grows(s: Seq<Bank>, a: int, b: int)
    requires
        0 <= a <= b <= s.len(),
    ensures
        size_before(s, a) <= size_before(s, b),
    decreases b - a,
{
    if a < b {
        lemma_size_before_grows(s, a, b - 1);
    }
}

/// Moves every internal bank but the first to where the one before it ends.
pub fn enforce_internal_banks_are_contiguous(internal_memory_map: &mut InternalMemoryMap)
    requires
        old(internal_memory_map).banks@.len() > 0 ==> chain_fits(
            old(internal_memory_map).banks@,
            old(internal_memory_map).banks@[0].start_address as int,
        ),
    ensures
        final(internal_memory_map).bootloader_location == old(internal_memory_map).bootloader_location,
        final(internal_memory_map).bootloader_length_kb == old(internal_memory_map).bootloader_length_kb,
        final(internal_memory_map).bootable_index == old(internal_memory_map).bootable_index,
        final(internal_memory_map).banks@.len() == old(internal_memory_map).banks@.len(),
        contiguous(final(internal_memory_map).banks@),
        forall|k: int| 0 <= k < final(internal_memory_map).banks@.len() ==> #[trigger] final(internal_memory_map).banks@[k].size_kb
            == old(internal_memory_map).banks@[k].size_kb,
        forall|k: int| 0 <= k < final(internal_memory_map).banks@.len() ==> #[trigger] final(internal_memory_map).banks@[k].start_address
            == old(internal_memory_map).banks@[0].start_address + size_before(old(internal_memory_map).banks@, k),
{
    make_contiguous(&mut internal_memory_map.banks);
}

/// Keeps the banks that end before `end`.
fn retain_within(banks: &mut Vec<Bank>, end: u32)
    requires
        forall|k: int| 0 <= k < old(banks)@.len() ==> (#[trigger] old(banks)@[k]).spec_end() <= u32::MAX,
    ensures
        final(banks)@ == within(old(banks)@, end),
{
    let mut kept: Vec<Bank> = Vec::new();
    let mut i: usize = 0;
    while i < banks.len()
        invariant
            i <= banks@.len(),
            forall|k: int| 0 <= k < banks@.len() ==> (#[trigger] banks@[k]).spec_end() <= u32::MAX,
            kept@ == within(banks@.subrange(0, i as int), end),
        decreases banks@.len() - i,
    {
        proof {
            reveal(Seq::filter);
            assert(banks@.subrange(0, i + 1).drop_last() =~= banks@.subrange(0, i as int));
        }
        let b = banks[i];
        if b.end_address() < end {
            kept.push(b);
        }
        i = i + 1;
    }
    assert(banks@.subrange(0, banks@.len() as int) =~= banks@);
    *banks = kept;
}

/// Drops the internal banks that do not end within the chip, and the
/// bootable index when its bank is gone.
pub fn enforce_internal_bank_ranges_are_maintained(internal_memory_map: &mut InternalMemoryMap, internal_flash: &FlashChip)
    requires
        forall|k: int| 0 <= k < old(internal_memory_map).banks@.len() ==> (#[trigger] old(internal_memory_map).banks@[k]).spec_end() <= u32::MAX,
    ensures
        final(internal_memory_map).bootloader_location == old(internal_memory_map).bootloader_location,
        final(internal_memory_map).bootloader_length_kb == old(internal_memory_map).bootloader_length_kb,
        final(internal_memory_map).banks@ == within(old(internal_memory_map).banks@, internal_flash.end),
        final(internal_memory_map).bootable_index == match old(internal_memory_map).bootable_index {
            Some(i) => if i >= final(internal_memory_map).banks@.len() { None } else { Some(i) },
            None => None,
        },
{
    retain_within(&mut internal_memory_map.banks, internal_flash.end);
    if let Some(index) = internal_memory_map.bootable_index {
        if index >= internal_memory_map.banks.len() {
            internal_memory_map.bootable_index = None;
        }
    }
}

/// Lays the external banks out one after the other from the chip's start,
/// and drops those that do not end within the chip.
pub fn enforce_external_banks_are_contiguous(external_memory_map: &mut ExternalMemoryMap, chip: &FlashChip)
    requires
        chain_fits(old(external_memory_map).banks@, chip.start as int),
    ensures
        final(external_memory_map).pins == old(external_memory_map).pins,
        contiguous(final(external_memory_map).banks@),
        final(external_memory_map).banks@.len() > 0 ==> final(external_memory_map).banks@[0].start_address == chip.start,
        forall|k: int| 0 <= k < final(external_memory_map).banks@.len() ==> (#[trigger] final(external_memory_map).banks@[k]).spec_end() < chip.end,
        final(external_memory_map).banks@.len() <= old(external_memory_map).banks@.len(),
        forall|k: int| 0 <= k < final(external_memory_map).banks@.len() ==> #[trigger] final(external_memory_map).banks@[k] == (Bank {
            start_address: (chip.start + size_before(old(external_memory_map).banks@, k)) as u32,
            size_kb: old(external_memory_map).banks@[k].size_kb,
        }),
        final(external_memory_map).banks@.len() < old(external_memory_map).banks@.len() ==> chip.start + size_before(
            old(external_memory_map).banks@,
            final(external_memory_map).banks@.len() + 1int,
        ) >= chip.end,
{
    if external_memory_map.banks.len() > 0 {
        let size_kb = external_memory_map.banks[0].size_kb;
        external_memory_map.banks.set(0, Bank { start_address: chip.start, size_kb });
    }
    let ghost laid = external_memory_map.banks@;
    let ghost old_banks = old(external_memory_map).banks@;
    proof {
        assert forall|k: int| 0 <= k <= laid.len() implies #[trigger] size_before(old_banks, k) == size_before(laid, k) by {
            lemma_size_before_same(old_banks, laid, k);
        }
    }
    make_contiguous(&mut external_memory_map.banks);
    let ghost contiguous_banks = external_memory_map.banks@;
    proof {
        if laid.len() > 0 {
            lemma_chain_ends(contiguous_banks, laid, chip.start as int);
        }
    }
    retain_within(&mut external_memory_map.banks, chip.end);
    proof {
        lemma_within_contiguous(contiguous_banks, chip.end);
        let fin = external_memory_map.banks@;
        assert forall|k: int| 0 <= k < fin.len() implies #[trigger] fin[k] == (Bank {
            start_address: (chip.start + size_before(old_banks, k)) as u32,
            size_kb: old_banks[k].size_kb,
        }) by {
            assert(fin[k] == contiguous_banks[k]);
            assert(size_before(old_banks, k) == size_before(laid, k));
            lemma_size_before_grows(laid, k, laid.len() as int);
        }
        if fin.len() < old_banks.len() {
            let n = fin.len() as int;
            assert(contiguous_banks[n].spec_end() == chip.start + size_before(laid, n + 1));
            assert(size_before(old_banks, n + 1) == size_before(laid, n + 1));
        }
    }
}

/// Sizes depend on the banks' sizes only.
proof fn lemma_size_before_same(a: Seq<Bank>, b: Seq<Bank>, n: int)
    requires
        0 <= n <= a.len(),
        a.len() == b.len(),
        forall|k: int| 0 <= k < a.len() ==> #[trigger] a[k].size_kb == b[k].size_kb,
    ensures
        size_before(a, n) == size_before(b, n),
    decreases n,
{
    if n > 0 {
        lemma_size_before_same(a, b, n - 1);
    }
}

/// Banks laid out from `start` end where their sizes add up to.
proof fn lemma_chain_ends(s: Seq<Bank>, sizes: Seq<Bank>, start: int)
    requires
        s.len() == sizes.len(),
        chain_fits(sizes, start),
        forall|k: int| 0 <= k < s.len() ==> #[trigger] s[k].size_kb == sizes[k].size_kb,
        forall|k: int| 0 <= k < s.len() ==> #[trigger] s[k].start_address == start + size_before(sizes, k),
    ensures
        forall|k: int| 0 <= k < s.len() ==> (#[trigger] s[k]).spec_end() == start + size_before(sizes, k + 1),
        forall|k: int| 0 <= k < s.len() ==> (#[trigger] s[k]).spec_end() <= u32::MAX,
{
    assert forall|k: int| 0 <= k < s.len() implies (#[trigger] s[k]).spec_end() <= u32::MAX by {
        lemma_size_before_grows(sizes, k + 1, sizes.len() as int);
    }
}

/// In contiguous banks, ends never decrease.
proof fn lemma_ends_grow(s: Seq<Bank>, i: int, j: int)
    requires
        contiguous(s),
        0 <= i <= j < s.len(),
    ensures
        s[i].spec_end() <= s[j].spec_end(),
    decreases j - i,
{
    if i < j {
        lemma_ends_grow(s, i, j - 1);
        let k = j - 1;
        assert(s[k + 1].start_address == s[k].spec_end());
    }
}

/// Keeping every bank keeps them all.
proof fn lemma_within_all(s: Seq<Bank>, end: u32)
    requires
        forall|k: int| 0 <= k < s.len() ==> (#[trigger] s[k]).spec_end() < end,
    ensures
        within(s, end) == s,
    decreases s.len(),
{
    reveal(Seq::filter);
    if s.len() > 0 {
        assert forall|k: int| 0 <= k < s.drop_last().len() implies (#[trigger] s.drop_last()[k]).spec_end() < end by {
            assert(s.drop_last()[k] == s[k]);
        }
        lemma_within_all(s.drop_last(), end);
        assert(s.drop_last().push(s.last()) =~= s);
    }
}

/// The banks of a contiguous layout that end before `end` are a contiguous
/// prefix of it, and all of them end before `end`.
proof fn lemma_within_contiguous(s: Seq<Bank>, end: u32)
    requires
        contiguous(s),
    ensures
        contiguous(within(s, end)),
        within(s, end) == s.subrange(0, within(s, end).len() as int),
        forall|k: int| 0 <= k < within(s, end).len() ==> (#[trigger] within(s, end)[k]).spec_end() < end,
        within(s, end).len() < s.len() ==> s[within(s, end).len() as int].spec_end() >= end,
    decreases s.len(),
{
    reveal(Seq::filter);
    if s.len() > 0 {
        let init = s.drop_last();
        assert(contiguous(init)) by {
            assert forall|k: int| 0 <= k < init.len() - 1 implies #[trigger] init[k + 1].start_address == init[k].spec_end() by {
                assert(init[k + 1] == s[k + 1]);
                assert(init[k] == s[k]);
            }
        }
        if s.last().spec_end() < end {
            assert forall|k: int| 0 <= k < s.len() implies (#[trigger] s[k]).spec_end() < end by {
                lemma_ends_grow(s, k, s.len() - 1);
            }
            lemma_within_all(s, end);
            assert(s.subrange(0, s.len() as int) =~= s);
        } else {
            lemma_within_contiguous(init, end);
            assert(within(s, end) == within(init, end));
            assert(init.subrange(0, within(init, end).len() as int) =~= s.subrange(0, within(init, end).len() as int));
        }
    }
}


/// The port has a driver for an external chip of this name.
pub open spec fn name_supported(port: Port, chip: FlashChip) -> bool {
    port is Stm32F412 && chip.name@ == "Micron n25q128a"@
}

/// The arithmetic of normalizing the memory maps fits 32 bits.
pub open spec fn normalize_fits(m: InternalMemoryMap, e: ExternalMemoryMap, chip: FlashChip, external: Option<FlashChip>) -> bool {
    &&& m.banks@.len() > 0 ==> follow_fits(m, chip) && chain_fits(m.banks@, first_bank_start(m, chip))
    &&& external matches Some(c) ==> chain_fits(e.banks@, c.start as int)
}

/// Whether the port has a driver for an external chip of this name.
fn external_name_supported(port: &Port, chip: &FlashChip) -> (r: bool)
    ensures
        r == name_supported(*port, *chip),
{
    let chips = external_flash(port);
    let mut i: usize = 0;
    let mut found = false;
    while i < chips.len()
        invariant
            i <= chips@.len(),
            *port is Stm32F412 ==> chips@.len() == 1 && crate::config::memory::chip_is(chips@[0], "Micron n25q128a", false, 0, 0x00FF_FFFF, 4096u32),
            !(*port is Stm32F412) ==> chips@.len() == 0,
            found == exists|k: int| 0 <= k < i && (#[trigger] chips@[k]).name@ == chip.name@,
        decreases chips@.len() - i,
    {
        if chips[i].name == chip.name {
            found = true;
        }
        i = i + 1;
    }
    found
}

/// Enforces the memory maps' consistency after an edit: the bootable bank
/// is not the golden one; MCU banks start at the first erase region
/// boundary after the bootloader, follow each other without gaps, and end
/// within the MCU flash; external banks do the same from the start of the
/// external chip, which must be one the port has a driver for; without
/// such a chip there are no external banks.
pub fn normalize(
    internal_memory_map: &mut InternalMemoryMap,
    external_memory_map: &mut ExternalMemoryMap,
    internal_flash: &FlashChip,
    external_flash: &mut Option<FlashChip>,
    golden_index: &mut Option<usize>,
    port: &Port,
)
    requires
        normalize_fits(*old(internal_memory_map), *old(external_memory_map), *internal_flash, *old(external_flash)),
    ensures
        *final(golden_index) == if *old(golden_index) == old(internal_memory_map).bootable_index { None } else { *old(golden_index) },
        contiguous(final(internal_memory_map).banks@),
        forall|k: int| 0 <= k < final(internal_memory_map).banks@.len() ==> (#[trigger] final(internal_memory_map).banks@[k]).spec_end() < internal_flash.end,
        final(internal_memory_map).banks@.len() > 0 ==> final(internal_memory_map).banks@[0].start_address == first_bank_start(*old(internal_memory_map), *internal_flash),
        final(internal_memory_map).banks@.len() <= old(internal_memory_map).banks@.len(),
        forall|k: int| 0 <= k < final(internal_memory_map).banks@.len() ==> #[trigger] final(internal_memory_map).banks@[k].size_kb == old(internal_memory_map).banks@[k].size_kb,
        final(internal_memory_map).banks@.len() < old(internal_memory_map).banks@.len() ==> first_bank_start(*old(internal_memory_map), *internal_flash)
            + size_before(old(internal_memory_map).banks@, final(internal_memory_map).banks@.len() + 1int) >= internal_flash.end,
        final(internal_memory_map).bootable_index == match old(internal_memory_map).bootable_index {
            Some(i) => if i >= final(internal_memory_map).banks@.len() { None } else { Some(i) },
            None => None,
        },
        final(internal_memory_map).bootloader_length_kb == old(internal_memory_map).bootloader_length_kb,
        old(internal_memory_map).banks@.len() > 0 ==> final(internal_memory_map).bootloader_location == clamp(
            old(internal_memory_map).bootloader_location,
            internal_flash.start,
            internal_flash.end,
        ),
        final(external_memory_map).pins == old(external_memory_map).pins,
        *old(external_flash) is None ==> *final(external_flash) is None && final(external_memory_map).banks@.len() == 0,
        *old(external_flash) is Some && !name_supported(*port, old(external_flash)->0) ==> *final(external_flash) is None
            && final(external_memory_map).banks@.len() == 0,
        *old(external_flash) is Some && name_supported(*port, old(external_flash)->0) ==> {
            let c = old(external_flash)->0;
            &&& *final(external_flash) == *old(external_flash)
            &&& contiguous(final(external_memory_map).banks@)
            &&& final(external_memory_map).banks@.len() > 0 ==> final(external_memory_map).banks@[0].start_address == c.start
            &&& forall|k: int| 0 <= k < final(external_memory_map).banks@.len() ==> (#[trigger] final(external_memory_map).banks@[k]).spec_end() < c.end
            &&& final(external_memory_map).banks@.len() <= old(external_memory_map).banks@.len()
            &&& forall|k: int| 0 <= k < final(external_memory_map).banks@.len() ==> #[trigger] final(external_memory_map).banks@[k].size_kb
                == old(external_memory_map).banks@[k].size_kb
            &&& final(external_memory_map).banks@.len() < old(external_memory_map).banks@.len() ==> c.start + size_before(
                old(external_memory_map).banks@,
                final(external_memory_map).banks@.len() + 1int,
            ) >= c.end
        },
{
    enforce_bootable_bank_not_golden(golden_index, internal_memory_map);
    let ghost m0 = *internal_memory_map;
    enforce_internal_banks_follow_bootloader(internal_memory_map, internal_flash);
    let ghost m1 = internal_memory_map.banks@;
    proof {
        if m0.banks@.len() > 0 {
            assert forall|k: int| 0 <= k <= m1.len() implies #[trigger] size_before(m0.banks@, k) == size_before(m1, k) by {
                lemma_size_before_same(m0.banks@, m1, k);
            }
        }
    }
    enforce_internal_banks_are_contiguous(internal_memory_map);
    let ghost m2 = internal_memory_map.banks@;
    proof {
        if m1.len() > 0 {
            lemma_chain_ends(m2, m1, m1[0].start_address as int);
        }
    }
    enforce_internal_bank_ranges_are_maintained(internal_memory_map, internal_flash);
    proof {
        lemma_within_contiguous(m2, internal_flash.end);
        let fin = internal_memory_map.banks@;
        if fin.len() > 0 {
            assert(fin[0] == m2[0]);
        }
        assert forall|k: int| 0 <= k < fin.len() implies #[trigger] fin[k].size_kb == m0.banks@[k].size_kb by {
            assert(fin[k] == m2[k]);
        }
        if fin.len() < m2.len() {
            let n = fin.len() as int;
            assert(m2[n].spec_end() == m1[0].start_address + size_before(m1, n + 1));
            assert(size_before(m0.banks@, n + 1) == size_before(m1, n + 1));
        }
    }
    let supported = match external_flash {
        Some(chip) => Some(external_name_supported(port, chip)),
        None => None,
    };
    match supported {
        Some(true) => {
            match external_flash {
                Some(chip) => enforce_external_banks_are_contiguous(external_memory_map, chip),
                None => {},
            }
        },
        Some(false) => {
            *external_flash = None;
            external_memory_map.banks = Vec::new();
        },
        None => {
            external_memory_map.banks = Vec::new();
        },
    }
}


/// Where a new MCU bank goes: after the last bank, or after the bootloader
/// (wherever the bootloader is placed, and no earlier than its length past
/// the chip's start) when there is no bank yet.
pub open spec fn spec_next_internal_start(m: InternalMemoryMap, chip: FlashChip) -> int {
    if m.banks@.len() > 0 {
        m.banks@.last().spec_end()
    } else {
        let after_bootloader = m.bootloader_location + m.bootloader_length_kb * 1024;
        let after_start = chip.start + m.bootloader_length_kb * 1024;
        if after_bootloader >= after_start { after_bootloader } else { after_start }
    }
}

/// With banks in place, a new MCU bank starts right where the last one
/// ends, its start address plus its size, so it never overlaps that bank,
/// nor, when the banks follow each other in ascending order, any other.
pub proof fn lemma_next_bank_follows_the_last(m: InternalMemoryMap, chip: FlashChip)
    requires
        m.banks@.len() > 0,
    ensures
        spec_next_internal_start(m, chip) == m.banks@.last().start_address + m.banks@.last().size_kb * 1024,
        spec_next_internal_start(m, chip) >= m.banks@.last().start_address + m.banks@.last().size_kb * 1024,
        forall|k: int| 0 <= k < m.banks@.len() && (#[trigger] m.banks@[k]).spec_end() <= m.banks@.last().start_address
            ==> m.banks@[k].spec_end() < spec_next_internal_start(m, chip) || m.banks@.last().size_kb == 0,
{
}

/// Where a new MCU bank goes.
pub fn next_internal_bank_start(internal_memory_map: &InternalMemoryMap, internal_flash: &FlashChip) -> (r: u32)
    requires
        internal_memory_map.banks@.len() > 0 ==> internal_memory_map.banks@.last().spec_end() <= u32::MAX,
        internal_memory_map.banks@.len() == 0 ==> internal_memory_map.bootloader_location + internal_memory_map.bootloader_length_kb * 1024 <= u32::MAX
            && internal_flash.start + internal_memory_map.bootloader_length_kb * 1024 <= u32::MAX,
    ensures
        r == spec_next_internal_start(*internal_memory_map, *internal_flash),
{
    let n = internal_memory_map.banks.len();
    if n > 0 {
        internal_memory_map.banks[n - 1].end_address()
    } else {
        let length = internal_memory_map.bootloader_length_kb * KB;
        let after_bootloader = internal_memory_map.bootloader_location + length;
        let after_start = internal_flash.start + length;
        if after_bootloader >= after_start { after_bootloader } else { after_start }
    }
}

/// Where a new external bank goes: after the last bank, or at the start
/// of the chip.
pub fn next_external_bank_start(external_memory_map: &ExternalMemoryMap, external_flash: &FlashChip) -> (r: u32)
    requires
        external_memory_map.banks@.len() > 0 ==> external_memory_map.banks@.last().spec_end() <= u32::MAX,
    ensures
        external_memory_map.banks@.len() > 0 ==> r == external_memory_map.banks@.last().spec_end(),
        external_memory_map.banks@.len() == 0 ==> r == external_flash.start,
{
    let n = external_memory_map.banks.len();
    if n > 0 {
        external_memory_map.banks[n - 1].end_address()
    } else {
        external_flash.start
    }
}

/// Whether a bank of the smallest erasable size still fits before the end
/// of the chip.
pub fn enough_space(bank_start_address: u32, chip: &FlashChip) -> (r: bool)
    ensures
        r == (bank_start_address + chip.region_size < chip.end),
{
    (bank_start_address as u64) + (chip.region_size as u64) < chip.end as u64
}

/// Appends an MCU bank of the smallest erasable size; a golden index past
/// the MCU banks (an external golden bank) moves up by one.
pub fn add_internal_bank(
    golden_index: &mut Option<usize>,
    internal_memory_map: &mut InternalMemoryMap,
    bank_start_address: u32,
    internal_flash: &FlashChip,
)
    requires
        old(internal_memory_map).banks@.len() < usize::MAX,
        *old(golden_index) matches Some(g) ==> g < usize::MAX,
    ensures
        final(internal_memory_map).banks@ == old(internal_memory_map).banks@.push(Bank {
            start_address: bank_start_address,
            size_kb: internal_flash.region_size / 1024,
        }),
        final(internal_memory_map).bootable_index == old(internal_memory_map).bootable_index,
        final(internal_memory_map).bootloader_location == old(internal_memory_map).bootloader_location,
        final(internal_memory_map).bootloader_length_kb == old(internal_memory_map).bootloader_length_kb,
        *final(golden_index) == match *old(golden_index) {
            Some(g) => if g >= old(internal_memory_map).banks@.len() { Some((g + 1) as usize) } else { Some(g) },
            None => None,
        },
{
    if let Some(index) = *golden_index {
        if index >= internal_memory_map.banks.len() {
            *golden_index = Some(index + 1);
        }
    }
    internal_memory_map.banks.push(Bank { start_address: bank_start_address, size_kb: internal_flash.region_size / KB });
}

/// Appends an external bank of the smallest erasable size.
pub fn add_external_bank(external_memory_map: &mut ExternalMemoryMap, bank_start_address: u32, external_flash: &FlashChip)
    ensures
        final(external_memory_map).banks@ == old(external_memory_map).banks@.push(Bank {
            start_address: bank_start_address,
            size_kb: external_flash.region_size / 1024,
        }),
        final(external_memory_map).pins == old(external_memory_map).pins,
{
    external_memory_map.banks.push(Bank { start_address: bank_start_address, size_kb: external_flash.region_size / KB });
}

/// Marks bank `i` (counted over MCU then external banks) as golden, or
/// unmarks it if it is the golden one.
pub fn toggle_golden(golden_index: &mut Option<usize>, i: usize)
    ensures
        *final(golden_index) == if *old(golden_index) == Some(i) { None } else { Some(i) },
{
    *golden_index = match *golden_index {
        Some(index) => if index == i { None } else { Some(i) },
        None => Some(i),
    };
}

/// Deletes bank `position` of `banks`, whose first bank has the global
/// index `offset`; the golden index follows its bank, or is dropped with it.
pub fn delete_bank(banks: &mut Vec<Bank>, golden_index: &mut Option<usize>, position: usize, offset: usize)
    requires
        position < old(banks)@.len(),
        offset + old(banks)@.len() <= usize::MAX,
    ensures
        final(banks)@ == old(banks)@.remove(position as int),
        *final(golden_index) == match *old(golden_index) {
            Some(g) => if g == offset + position { None } else if offset + position < g { Some((g - 1) as usize) } else { Some(g) },
            None => None,
        },
{
    let i = offset + position;
    if let Some(index) = *golden_index {
        if i == index {
            *golden_index = None;
        } else if i < index {
            *golden_index = Some(index - 1);
        }
    }
    banks.remove(position);
}


/// Whether banks laid out from `start` end within the address space.
fn check_chain_fits(banks: &Vec<Bank>, start: u64) -> (r: bool)
    requires
        start <= u32::MAX,
    ensures
        r == chain_fits(banks@, start as int),
{
    let mut total: u64 = start;
    let mut i: usize = 0;
    while i < banks.len()
        invariant
            i <= banks@.len(),
            start <= u32::MAX,
            total == start + size_before(banks@, i as int),
            total <= u32::MAX,
        decreases banks@.len() - i,
    {
        let next = total + banks[i].size_kb as u64 * 1024;
        if next > u32::MAX as u64 {
            proof {
                lemma_size_before_grows(banks@, i + 1, banks@.len() as int);
            }
            return false;
        }
        total = next;
        i = i + 1;
    }
    true
}

/// Whether the first bank can be placed after the bootloader.
fn check_follow_fits(m: &InternalMemoryMap, chip: &FlashChip) -> (r: bool)
    ensures
        r == follow_fits(*m, *chip),
{
    if chip.start > chip.end || chip.region_size == 0 {
        return false;
    }
    let location = if m.bootloader_location < chip.start {
        chip.start
    } else if m.bootloader_location > chip.end {
        chip.end
    } else {
        m.bootloader_location
    };
    let end = location as u64 + 1024 * m.bootloader_length_kb as u64;
    if end > u32::MAX as u64 {
        return false;
    }
    let offset = if end >= chip.start as u64 { end - chip.start as u64 } else { 0 };
    let region = chip.region_size as u64;
    let aligned = if offset % region == 0 { offset } else { offset + (region - offset % region) };
    chip.start as u64 + aligned <= u32::MAX as u64
}

/// Whether the arithmetic of [`normalize`] fits 32 bits for these maps, so
/// that it may be called on them.
pub fn check_normalize_fits(
    internal_memory_map: &InternalMemoryMap,
    external_memory_map: &ExternalMemoryMap,
    internal_flash: &FlashChip,
    external_flash: &Option<FlashChip>,
) -> (r: bool)
    ensures
        r == normalize_fits(*internal_memory_map, *external_memory_map, *internal_flash, *external_flash),
{
    if internal_memory_map.banks.len() > 0 {
        if !check_follow_fits(internal_memory_map, internal_flash) {
            return false;
        }
        let start = first_bank_start_of(internal_memory_map, internal_flash);
        if !check_chain_fits(&internal_memory_map.banks, start as u64) {
            return false;
        }
    }
    match external_flash {
        Some(chip) => check_chain_fits(&external_memory_map.banks, chip.start as u64),
        None => true,
    }
}

/// Where the first bank goes, once it is known to fit.
fn first_bank_start_of(m: &InternalMemoryMap, chip: &FlashChip) -> (r: u32)
    requires
        follow_fits(*m, *chip),
    ensures
        r == first_bank_start(*m, *chip),
{
    let location = if m.bootloader_location < chip.start {
        chip.start
    } else if m.bootloader_location > chip.end {
        chip.end
    } else {
        m.bootloader_location
    };
    let end = location + KB * m.bootloader_length_kb;
    let offset = if end >= chip.start { end - chip.start } else { 0 };
    let modulo = offset % chip.region_size;
    let aligned = if modulo == 0 { offset } else { offset + (chip.region_size - modulo) };
    chip.start + aligned
}

} // verus!
