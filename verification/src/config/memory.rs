//! Memory layout of a Loadstone build: banks in MCU flash and, optionally,
//! in an external flash chip.

use vstd::prelude::*;
use crate::config::pins::QspiPins;
use crate::config::port::{Port, KB};

verus! {

/// Firmware bank. Meant to store firmware images, but can also store other
/// kinds of data if the application requires it.
#[derive(Copy, Clone, Debug, PartialEq, Eq)]
pub struct Bank {
    /// Bank address in flash memory.
    pub start_address: u32,
    /// Bank size in kilobytes.
    pub size_kb: u32,
}

impl Bank {
    /// Address right after the end of the bank.
    pub open spec fn spec_end(self) -> int {
        self.start_address + self.size_kb * 1024
    }

    /// Address immediately after the end of this bank.
    pub fn end_address(&self) -> (r: u32)
        requires
            self.spec_end() <= u32::MAX,
        ensures
            r == self.spec_end(),
    {
        self.start_address + self.size_kb * KB
    }
}

/// Memory map of the MCU flash: it holds the bootloader itself and a
/// bootable bank.
#[derive(Clone, Debug, PartialEq, Eq)]
pub struct InternalMemoryMap {
    pub bootloader_location: u32,
    pub bootloader_length_kb: u32,
    pub banks: Vec<Bank>,
    pub bootable_index: Option<usize>,
}

impl Default for InternalMemoryMap {
    fn default() -> (r: Self)
        ensures
            r.bootloader_location == 0,
            r.bootloader_length_kb == 64,
            r.banks@.len() == 0,
            r.bootable_index is None,
    {
        InternalMemoryMap {
            bootloader_location: 0,
            bootloader_length_kb: 64,
            banks: Vec::new(),
            bootable_index: None,
        }
    }
}

/// Memory map of an optional external flash chip. It cannot hold a
/// bootable bank, but it may hold a golden bank.
#[derive(Clone, Debug, PartialEq, Eq)]
pub struct ExternalMemoryMap {
    pub pins: Option<QspiPins>,
    pub banks: Vec<Bank>,
}

impl Default for ExternalMemoryMap {
    fn default() -> (r: Self)
        ensures
            r.pins is None,
            r.banks@.len() == 0,
    {
        ExternalMemoryMap { pins: None, banks: Vec::new() }
    }
}

/// Definition of a flash chip's hardware.
#[derive(Clone, Debug, PartialEq, Eq)]
pub struct FlashChip {
    /// Tag to identify the hardware.
    pub name: String,
    /// Whether the chip is the MCU flash, or external (QSPI...).
    pub internal: bool,
    /// Start address of the user writable area.
    pub start: u32,
    /// End address of the user writable area.
    pub end: u32,
    /// Size of the smallest erasable region.
    pub region_size: u32,
}

/// `c` is the described chip.
pub open spec fn chip_is(c: FlashChip, name: &str, internal: bool, start: u32, end: u32, region_size: u32) -> bool {
    &&& c.name@ == name@
    &&& c.internal == internal
    &&& c.start == start
    &&& c.end == end
    &&& c.region_size == region_size
}

/// Two chip descriptions agree in every field.
pub open spec fn same_chip(a: FlashChip, b: FlashChip) -> bool {
    &&& a.name@ == b.name@
    &&& a.internal == b.internal
    &&& a.start == b.start
    &&& a.end == b.end
    &&& a.region_size == b.region_size
}

/// Whether two chip descriptions agree in every field.
pub fn chips_equal(a: &FlashChip, b: &FlashChip) -> (r: bool)
    ensures
        r == same_chip(*a, *b),
{
    a.name == b.name && a.internal == b.internal && a.start == b.start && a.end == b.end
        && a.region_size == b.region_size
}

/// Layout of all memory Loadstone manages: the MCU memory map, the
/// optional external memory map, and the golden bank.
#[derive(Clone, Debug, PartialEq, Eq)]
pub struct MemoryConfiguration {
    pub internal_memory_map: InternalMemoryMap,
    pub external_memory_map: ExternalMemoryMap,
    pub external_flash: Option<FlashChip>,
    pub golden_index: Option<usize>,
}

impl Default for MemoryConfiguration {
    fn default() -> (r: Self)
        ensures
            r.internal_memory_map.bootloader_location == 0,
            r.internal_memory_map.bootloader_length_kb == 64,
            r.internal_memory_map.banks@.len() == 0,
            r.internal_memory_map.bootable_index is None,
            r.external_memory_map.pins is None,
            r.external_memory_map.banks@.len() == 0,
            r.external_flash is None,
            r.golden_index is None,
    {
        MemoryConfiguration {
            internal_memory_map: InternalMemoryMap::default(),
            external_memory_map: ExternalMemoryMap::default(),
            external_flash: None,
            golden_index: None,
        }
    }
}

impl MemoryConfiguration {
    /// Address the application boots from: the start of the bootable bank,
    /// if there is one.
    pub open spec fn spec_bootable_address(self) -> Option<u32> {
        let m = self.internal_memory_map;
        match m.bootable_index {
            Some(i) => if i < m.banks@.len() { Some(m.banks@[i as int].start_address) } else { None },
            None => None,
        }
    }

    /// The address the application boots from is the start of the bank at
    /// the bootable index, so different bootable banks give their own start
    /// addresses; an index with no bank, or no bootable bank, gives none.
    pub proof fn lemma_bootable_address(self)
        ensures
            self.internal_memory_map.bootable_index is Some && self.internal_memory_map.bootable_index->0
                < self.internal_memory_map.banks@.len() ==> self.spec_bootable_address() == Some(
                self.internal_memory_map.banks@[self.internal_memory_map.bootable_index->0 as int].start_address,
            ),
            self.internal_memory_map.bootable_index is Some && self.internal_memory_map.bootable_index->0
                >= self.internal_memory_map.banks@.len() ==> self.spec_bootable_address() is None,
            self.internal_memory_map.bootable_index is None ==> self.spec_bootable_address() is None,
    {
    }

    /// Address the application boots from: the start of the bootable bank.
    pub fn bootable_address(&self) -> (r: Option<u32>)
        ensures
            r == self.spec_bootable_address(),
    {
        match self.internal_memory_map.bootable_index {
            Some(i) => {
                if i < self.internal_memory_map.banks.len() {
                    Some(self.internal_memory_map.banks[i].start_address)
                } else {
                    None
                }
            },
            None => None,
        }
    }
}

/// The MCU flash of a port. Every port has exactly one.
pub fn internal_flash(port: &Port) -> (r: FlashChip)
    ensures
        *port is Stm32F412 ==> chip_is(r, "STM32F412 MCU Flash", true, 0x0800_0000, 0x0810_0000, 16384u32),
        *port is Wgm160P ==> chip_is(r, "EFM32GG11 MCU Flash", true, 0, 2097152u32, 4096u32),
        *port is Maxim3263 ==> chip_is(r, "Maxim3263 MCU Flash", true, 0, 2097152u32, 8192u32),
{
    match port {
        Port::Stm32F412 => FlashChip {
            name: "STM32F412 MCU Flash".to_owned(),
            internal: true,
            start: 0x0800_0000,
            end: 0x0810_0000,
            region_size: 16 * KB,
        },
        Port::Wgm160P => FlashChip {
            name: "EFM32GG11 MCU Flash".to_owned(),
            internal: true,
            start: 0,
            end: 512 * 4 * KB,
            region_size: 4 * KB,
        },
        Port::Maxim3263 => FlashChip {
            name: "Maxim3263 MCU Flash".to_owned(),
            internal: true,
            start: 0,
            end: 256 * 8 * KB,
            region_size: 8 * KB,
        },
    }
}

/// A chip that a port has an external flash driver for.
pub open spec fn is_supported_external(port: Port, chip: FlashChip) -> bool {
    port is Stm32F412 && chip_is(chip, "Micron n25q128a", false, 0, 0x00FF_FFFF, 4096u32)
}

/// The external flash chips a port has drivers for.
pub fn external_flash(port: &Port) -> (r: Vec<FlashChip>)
    ensures
        !(*port is Stm32F412) ==> r@.len() == 0,
        *port is Stm32F412 ==> r@.len() == 1 && chip_is(r@[0], "Micron n25q128a", false, 0, 0x00FF_FFFF, 4096u32),
        forall|i: int| 0 <= i < r@.len() ==> is_supported_external(*port, #[trigger] r@[i]),
{
    match port {
        Port::Stm32F412 => vec![
            FlashChip {
                name: "Micron n25q128a".to_owned(),
                internal: false,
                start: 0,
                end: 0x00FF_FFFF,
                region_size: 4 * KB,
            },
        ],
        _ => Vec::new(),
    }
}

} // verus!
