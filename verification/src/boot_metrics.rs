//! Metrics relayed to the application by the bootloader.
//!
//! Immediately before jumping to a target image, the bootloader stores a
//! collection of metrics in a designated section of RAM. The application may
//! collect them, and must check their integrity markers before trusting them.

use vstd::prelude::*;

verus! {

/// Bit pattern that marks the start of a valid boot metrics record.
pub const BOOT_MAGIC_START: u32 = 0xDEADBEEF;
/// Bit pattern that marks the end of a valid boot metrics record.
pub const BOOT_MAGIC_END: u32 = 0xCAFEBABE;

/// Actions taken by the bootloader that ultimately led to an image being booted.
#[derive(Clone, Copy, Debug, PartialEq, Eq)]
pub enum BootPath {
    /// The image was booted directly from the bootable MCU bank.
    Direct,
    /// The image was first restored from another bank, then booted.
    Restored { bank: u8 },
    /// The image was first updated from another bank, then booted.
    Updated { bank: u8 },
}

/// Collection of boot metrics relayed by the bootloader to the booted application.
#[derive(Clone, Copy, Debug)]
pub struct BootMetrics {
    /// Must equal [`BOOT_MAGIC_START`] for the record to be trusted.
    pub boot_magic_start: u32,
    /// The actions that led to the image being booted.
    pub boot_path: BootPath,
    /// Milliseconds from the start of the bootloader to the jump into the image.
    pub boot_time_ms: Option<u32>,
    /// Must equal [`BOOT_MAGIC_END`] for the record to be trusted.
    pub boot_magic_end: u32,
}

impl BootMetrics {
    /// Integrity of a record read back from untracked memory.
    pub open spec fn spec_is_valid(self) -> bool {
        self.boot_magic_start == BOOT_MAGIC_START && self.boot_magic_end == BOOT_MAGIC_END
    }

    /// A fresh record: direct boot, no timing, both integrity markers in place.
    pub fn new() -> (r: Self)
        ensures
            r.boot_magic_start == BOOT_MAGIC_START,
            r.boot_path == BootPath::Direct,
            r.boot_time_ms.is_none(),
            r.boot_magic_end == BOOT_MAGIC_END,
            r.spec_is_valid(),
    {
        BootMetrics {
            boot_magic_start: BOOT_MAGIC_START,
            boot_path: BootPath::Direct,
            boot_time_ms: None,
            boot_magic_end: BOOT_MAGIC_END,
        }
    }

    /// True when both integrity markers hold their expected values, so that
    /// the record read from raw memory has not been clobbered.
    pub fn is_valid(&self) -> (r: bool)
        ensures
            r == self.spec_is_valid(),
    {
        self.boot_magic_start == BOOT_MAGIC_START && self.boot_magic_end == BOOT_MAGIC_END
    }
}

impl Default for BootMetrics {
    fn default() -> (r: Self)
        ensures
            r.boot_magic_start == BOOT_MAGIC_START,
            r.boot_path == BootPath::Direct,
            r.boot_time_ms.is_none(),
            r.boot_magic_end == BOOT_MAGIC_END,
    {
        Self::new()
    }
}

} // verus!
