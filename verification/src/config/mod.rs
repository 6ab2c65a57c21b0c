//! The configuration a Loadstone build is generated from, and the rules
//! that keep it consistent.

pub mod port;
pub mod pins;
pub mod memory;
pub mod features;
pub mod security;
pub mod normalize;

use vstd::prelude::*;
use crate::config::features::{spec_serial_supported, spec_timing_supported, BootMetrics, FeatureConfiguration, Greetings, Serial};
use crate::config::memory::{external_flash, chips_equal, is_supported_external, Bank, MemoryConfiguration};
use crate::config::port::{LinkerScriptConstants, Port};
use crate::config::security::{SecurityConfiguration, SecurityMode};

verus! {

/// Everything a Loadstone build is generated from.
#[derive(Clone, Debug, PartialEq, Eq)]
pub struct Configuration {
    /// The target chip.
    pub port: Port,
    /// MCU and external flash layout.
    pub memory_configuration: MemoryConfiguration,
    /// Optional features such as serial communication or boot metrics.
    pub feature_configuration: FeatureConfiguration,
    /// How images are checked.
    pub security_configuration: SecurityConfiguration,
}

impl Default for Configuration {
    fn default() -> (r: Self)
        ensures
            r.port == Port::Stm32F412,
            r.memory_configuration.internal_memory_map.banks@.len() == 0,
            r.memory_configuration.internal_memory_map.bootable_index is None,
            r.memory_configuration.external_memory_map.banks@.len() == 0,
            r.memory_configuration.external_flash is None,
            r.memory_configuration.golden_index is None,
            r.feature_configuration.serial is Disabled,
            r.feature_configuration.boot_metrics is Disabled,
            r.security_configuration.security_mode == SecurityMode::P256ECDSA,
            r.security_configuration.verifying_key_raw@.len() == 0,
    {
        Configuration {
            port: Port::default(),
            memory_configuration: MemoryConfiguration::default(),
            feature_configuration: FeatureConfiguration::default(),
            security_configuration: SecurityConfiguration::default(),
        }
    }
}

/// Configuration steps that may be missing before a Loadstone build can
/// be generated.
#[derive(Copy, Clone, Debug, PartialEq, Eq)]
pub enum RequiredConfigurationStep {
    PublicKey,
    SerialTxPin,
    SerialRxPin,
    BootableBank,
}

impl RequiredConfigurationStep {
    /// What the configuration tool shows for the missing step.
    pub fn message(&self) -> (r: &'static str)
        ensures
            *self is PublicKey ==> r == "[Security] Provide P256 ECDSA public key or enable CRC32 mode",
            *self is SerialTxPin ==> r == "[Features] Define Serial Tx pin",
            *self is SerialRxPin ==> r == "[Features] Define Serial Rx pin",
            *self is BootableBank ==> r == "[Memory Map] Define a bootable bank",
    {
        match self {
            RequiredConfigurationStep::PublicKey => "[Security] Provide P256 ECDSA public key or enable CRC32 mode",
            RequiredConfigurationStep::SerialTxPin => "[Features] Define Serial Tx pin",
            RequiredConfigurationStep::SerialRxPin => "[Features] Define Serial Rx pin",
            RequiredConfigurationStep::BootableBank => "[Memory Map] Define a bootable bank",
        }
    }
}

/// The steps missing from a configuration: a bootable bank, and a public
/// key when images are checked by signature.
pub open spec fn missing_steps(c: Configuration) -> Seq<RequiredConfigurationStep> {
    let bootable = if c.memory_configuration.internal_memory_map.bootable_index is None {
        seq![RequiredConfigurationStep::BootableBank]
    } else {
        seq![]
    };
    let key = if c.security_configuration.security_mode == SecurityMode::P256ECDSA
        && c.security_configuration.verifying_key_raw@.len() == 0 {
        seq![RequiredConfigurationStep::PublicKey]
    } else {
        seq![]
    };
    bootable + key
}

/// A public key is missing exactly when images are checked by signature
/// and no key is configured, whatever the bootable bank; a bootable bank is
/// missing exactly when none is chosen; nothing else is ever missing, and
/// each step is named at most once.
pub proof fn lemma_missing_steps(c: Configuration)
    ensures
        missing_steps(c).contains(RequiredConfigurationStep::PublicKey) <==> (c.security_configuration.security_mode
            == SecurityMode::P256ECDSA && c.security_configuration.verifying_key_raw@.len() == 0),
        missing_steps(c).contains(RequiredConfigurationStep::BootableBank)
            <==> c.memory_configuration.internal_memory_map.bootable_index is None,
        forall|k: int| 0 <= k < missing_steps(c).len() ==> (#[trigger] missing_steps(c)[k] == RequiredConfigurationStep::PublicKey
            || missing_steps(c)[k] == RequiredConfigurationStep::BootableBank),
        missing_steps(c).len() <= 2,
{
    let m = missing_steps(c);
    if c.security_configuration.security_mode == SecurityMode::P256ECDSA && c.security_configuration.verifying_key_raw@.len() == 0 {
        assert(m[m.len() - 1] == RequiredConfigurationStep::PublicKey);
    }
    if c.memory_configuration.internal_memory_map.bootable_index is None {
        assert(m[0] == RequiredConfigurationStep::BootableBank);
    }
}

/// Everything the configuration keeps consistent: features the port does
/// not support are off, there are at most 255 banks in all, a key is held
/// only for signature checks, the golden bank exists, and external banks
/// exist only on a supported external flash chip.
pub open spec fn is_clean(c: Configuration) -> bool {
    let m = c.memory_configuration;
    let internal = m.internal_memory_map.banks@.len();
    let external = m.external_memory_map.banks@.len();
    &&& !spec_serial_supported(c.port) ==> c.feature_configuration.serial is Disabled
    &&& internal + external <= 255
    &&& !spec_timing_supported(c.port) ==> !(c.feature_configuration.boot_metrics matches BootMetrics::Enabled { timing: true })
    &&& c.security_configuration.security_mode != SecurityMode::P256ECDSA ==> c.security_configuration.verifying_key_raw@.len() == 0
    &&& m.golden_index matches Some(g) ==> g < internal + external
    &&& m.external_flash matches Some(f) ==> is_supported_external(c.port, f)
    &&& m.external_flash is None ==> external == 0
}

/// The first `n` banks, or all of them when there are fewer.
fn truncate_banks(v: &mut Vec<Bank>, n: usize)
    ensures
        final(v)@ == if old(v)@.len() > n { old(v)@.subrange(0, n as int) } else { old(v)@ },
{
    let ghost v0 = v@;
    while v.len() > n
        invariant
            v0 == old(v)@,
            v@.len() <= v0.len(),
            v0.len() > n ==> v@.len() >= n,
            v0.len() <= n ==> v@.len() == v0.len(),
            v@ == v0.subrange(0, v@.len() as int),
        decreases v@.len(),
    {
        let ghost before = v@;
        v.pop();
        assert(v@ =~= v0.subrange(0, v@.len() as int)) by {
            assert(v@ == before.drop_last());
        }
    }
    assert(v0.subrange(0, v0.len() as int) =~= v0);
}

impl Configuration {
    /// Missing configuration steps before a Loadstone build can be generated.
    pub fn required_configuration_steps(&self) -> (r: Vec<RequiredConfigurationStep>)
        ensures
            r@ == missing_steps(*self),
    {
        let mut steps: Vec<RequiredConfigurationStep> = Vec::new();
        if self.memory_configuration.internal_memory_map.bootable_index.is_none() {
            steps.push(RequiredConfigurationStep::BootableBank);
        }
        if self.security_configuration.security_mode == SecurityMode::P256ECDSA
            && self.security_configuration.verifying_key_raw.as_str().is_empty() {
            steps.push(RequiredConfigurationStep::PublicKey);
        }
        assert(steps@ =~= missing_steps(*self));
        steps
    }

    /// Whether the configuration has all it takes to generate a build.
    pub fn complete(&self) -> (r: bool)
        ensures
            r == (missing_steps(*self).len() == 0),
    {
        self.required_configuration_steps().len() == 0
    }

    /// The feature flags a build with this configuration is compiled with:
    /// the port's, and signature verification when images are signed.
    pub fn required_feature_flags(&self) -> (r: Vec<&'static str>)
        ensures
            r@.len() == if self.security_configuration.security_mode == SecurityMode::P256ECDSA { 2int } else { 1int },
            self.port is Stm32F412 ==> r@[0] == "stm32f412",
            self.port is Wgm160P ==> r@[0] == "wgm160p",
            self.port is Maxim3263 ==> r@[0] == "max32631",
            self.security_configuration.security_mode == SecurityMode::P256ECDSA ==> r@[1] == "ecdsa-verify",
    {
        let mut flags: Vec<&'static str> = Vec::new();
        match self.port {
            Port::Stm32F412 => flags.push("stm32f412"),
            Port::Wgm160P => flags.push("wgm160p"),
            Port::Maxim3263 => flags.push("max32631"),
        }
        if self.security_configuration.security_mode == SecurityMode::P256ECDSA {
            flags.push("ecdsa-verify");
        }
        flags
    }

    /// Cleans up the configuration, enforcing its invariants: features the
    /// port lacks are switched off, banks beyond the 255 that indices can
    /// name are dropped (MCU banks first in line), a key not used for
    /// signature checks is cleared, an external flash the port has no driver
    /// for is dropped, and so are external banks without an external flash;
    /// last, a golden index past the last remaining bank is dropped.
    pub fn cleanup(&mut self)
        ensures
            ({
                let o = *old(self);
                let f = *final(self);
                let om = o.memory_configuration;
                let fm = f.memory_configuration;
                let internal = if om.internal_memory_map.banks@.len() > 255 {
                    om.internal_memory_map.banks@.subrange(0, 255)
                } else {
                    om.internal_memory_map.banks@
                };
                let room = 255 - internal.len();
                let external = if om.external_memory_map.banks@.len() > room {
                    om.external_memory_map.banks@.subrange(0, room)
                } else {
                    om.external_memory_map.banks@
                };
                let chip_kept = om.external_flash matches Some(c) && is_supported_external(o.port, c);
                let kept_external = if chip_kept { external.len() } else { 0 };
                &&& f.port == o.port
                &&& f.feature_configuration.greetings == o.feature_configuration.greetings
                &&& f.feature_configuration.serial == if spec_serial_supported(o.port) { o.feature_configuration.serial } else { Serial::Disabled }
                &&& f.feature_configuration.boot_metrics == if !spec_timing_supported(o.port) && o.feature_configuration.boot_metrics is Enabled {
                    BootMetrics::Enabled { timing: false }
                } else {
                    o.feature_configuration.boot_metrics
                }
                &&& f.security_configuration.security_mode == o.security_configuration.security_mode
                &&& f.security_configuration.verifying_key_raw@ == if o.security_configuration.security_mode == SecurityMode::P256ECDSA {
                    o.security_configuration.verifying_key_raw@
                } else {
                    Seq::empty()
                }
                &&& fm.internal_memory_map.bootloader_location == om.internal_memory_map.bootloader_location
                &&& fm.internal_memory_map.bootloader_length_kb == om.internal_memory_map.bootloader_length_kb
                &&& fm.internal_memory_map.bootable_index == om.internal_memory_map.bootable_index
                &&& fm.internal_memory_map.banks@ == internal
                &&& fm.external_memory_map.pins == om.external_memory_map.pins
                &&& fm.external_memory_map.banks@ == if chip_kept { external } else { Seq::empty() }
                &&& fm.external_flash == if chip_kept { om.external_flash } else { None }
                &&& fm.golden_index == match om.golden_index {
                    Some(g) => if g >= internal.len() + kept_external { None } else { Some(g) },
                    None => None,
                }
            }),
            is_clean(*old(self)) ==> {
                &&& final(self).feature_configuration == old(self).feature_configuration
                &&& final(self).security_configuration.verifying_key_raw@ == old(self).security_configuration.verifying_key_raw@
                &&& final(self).memory_configuration.internal_memory_map.banks@ == old(self).memory_configuration.internal_memory_map.banks@
                &&& final(self).memory_configuration.external_memory_map.banks@ == old(self).memory_configuration.external_memory_map.banks@
                &&& final(self).memory_configuration.external_flash == old(self).memory_configuration.external_flash
                &&& final(self).memory_configuration.golden_index == old(self).memory_configuration.golden_index
            },
            is_clean(*final(self)),
    {
        if !Serial::supported(&self.port) {
            self.feature_configuration.serial = Serial::Disabled;
        }
        truncate_banks(&mut self.memory_configuration.internal_memory_map.banks, 255);
        let max_external_banks = 255 - self.memory_configuration.internal_memory_map.banks.len();
        truncate_banks(&mut self.memory_configuration.external_memory_map.banks, max_external_banks);
        if !BootMetrics::timing_supported(&self.port) {
            if let BootMetrics::Enabled { timing: _ } = self.feature_configuration.boot_metrics {
                self.feature_configuration.boot_metrics = BootMetrics::Enabled { timing: false };
            }
        }
        if self.security_configuration.security_mode != SecurityMode::P256ECDSA
            && !self.security_configuration.verifying_key_raw.as_str().is_empty() {
            self.security_configuration.verifying_key_raw = String::new();
        }
        let compatible = external_flash(&self.port);
        let mut supported = false;
        if let Some(chip) = &self.memory_configuration.external_flash {
            let mut i: usize = 0;
            while i < compatible.len()
                invariant
                    i <= compatible@.len(),
                    forall|k: int| 0 <= k < compatible@.len() ==> is_supported_external(self.port, #[trigger] compatible@[k]),
                    supported ==> is_supported_external(self.port, *chip),
                    !supported ==> forall|k: int| 0 <= k < i ==> !crate::config::memory::same_chip(#[trigger] compatible@[k], *chip),
                    self.port is Stm32F412 ==> compatible@.len() == 1 && crate::config::memory::chip_is(compatible@[0], "Micron n25q128a", false, 0, 0x00FF_FFFF, 4096u32),
                decreases compatible@.len() - i,
            {
                if chips_equal(&compatible[i], chip) {
                    supported = true;
                }
                i = i + 1;
            }
            proof {
                if !supported && is_supported_external(self.port, *chip) {
                    assert(crate::config::memory::same_chip(compatible@[0], *chip));
                }
            }
        }
        if !supported {
            self.memory_configuration.external_flash = None;
        }
        if self.memory_configuration.external_flash.is_none()
            && self.memory_configuration.external_memory_map.banks.len() > 0 {
            self.memory_configuration.external_memory_map.banks = Vec::new();
        }
        if let Some(golden_index) = self.memory_configuration.golden_index {
            let bank_count = self.memory_configuration.internal_memory_map.banks.len()
                + self.memory_configuration.external_memory_map.banks.len();
            if golden_index >= bank_count {
                self.memory_configuration.golden_index = None;
            }
        }
    }
}


/// Moves the flash area of the linker script to the bootable bank, for an
/// application linked to run from there: the area then starts at the bank
/// and loses what lay before it.
pub fn relocate_to_bootable_bank(constants: &mut LinkerScriptConstants, configuration: &Configuration) -> (r: Result<(), &'static str>)
    requires
        configuration.memory_configuration.spec_bootable_address() matches Some(a) ==> a >= old(constants).flash.origin,
    ensures
        configuration.memory_configuration.spec_bootable_address() is None ==> r == Err::<(), &'static str>(
            "Impossible to relocate: bootable bank is undefined in configuration file.",
        ) && *final(constants) == *old(constants),
        configuration.memory_configuration.spec_bootable_address() matches Some(a) ==> r is Ok && *final(constants) == (LinkerScriptConstants {
            flash: crate::config::port::LinkerArea {
                origin: a,
                size: if old(constants).flash.size >= a - old(constants).flash.origin {
                    (old(constants).flash.size - (a - old(constants).flash.origin)) as usize
                } else {
                    0usize
                },
            },
            ram: old(constants).ram,
        }),
{
    let bootable_address = match configuration.memory_configuration.bootable_address() {
        Some(a) => a,
        None => return Err("Impossible to relocate: bootable bank is undefined in configuration file."),
    };
    let offset = bootable_address - constants.flash.origin;
    constants.flash.size = constants.flash.size.saturating_sub(offset as usize);
    constants.flash.origin = bootable_address;
    Ok(())
}


/// Boolean features compiled into a Loadstone build.
#[derive(Copy, Clone, Debug, PartialEq, Eq)]
pub struct BuildFlags {
    pub serial_enabled: bool,
    pub recovery_enabled: bool,
    pub boot_time_metrics_enabled: bool,
}

impl Configuration {
    /// The boolean features of the build: serial (and serial recovery) and
    /// boot timing, each only where the port supports it.
    pub fn build_flags(&self) -> (r: BuildFlags)
        requires
            self.feature_configuration.serial is Enabled ==> spec_serial_supported(self.port),
            self.feature_configuration.boot_metrics == (BootMetrics::Enabled { timing: true }) ==> spec_timing_supported(self.port),
        ensures
            r.serial_enabled == self.feature_configuration.serial is Enabled,
            r.recovery_enabled == (self.feature_configuration.serial matches Serial::Enabled { recovery_enabled, .. } && recovery_enabled),
            r.boot_time_metrics_enabled == (self.feature_configuration.boot_metrics == BootMetrics::Enabled { timing: true }),
    {
        let (serial_enabled, recovery_enabled) = match &self.feature_configuration.serial {
            Serial::Enabled { recovery_enabled, .. } => (true, *recovery_enabled),
            Serial::Disabled => (false, false),
        };
        let boot_time_metrics_enabled = match self.feature_configuration.boot_metrics {
            BootMetrics::Enabled { timing } => timing,
            BootMetrics::Disabled => false,
        };
        BuildFlags { serial_enabled, recovery_enabled, boot_time_metrics_enabled }
    }

    /// The greetings of Loadstone and of the demo application.
    pub fn greetings(&self) -> (r: (String, String))
        ensures
            self.feature_configuration.greetings is Default ==> r.0@ == "-- Loadstone --"@ && r.1@ == "-- Loadstone Demo App --"@,
            self.feature_configuration.greetings matches Greetings::Custom { loadstone, demo } ==> r.0@ == loadstone@ && r.1@ == demo@,
    {
        match &self.feature_configuration.greetings {
            Greetings::Default => ("-- Loadstone --".to_owned(), "-- Loadstone Demo App --".to_owned()),
            Greetings::Custom { loadstone, demo } => (loadstone.clone(), demo.clone()),
        }
    }
}

} // verus!
