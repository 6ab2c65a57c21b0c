//! Optional Loadstone features, and the ports that support them.

use vstd::prelude::*;
use crate::config::pins::PeripheralPin;
use crate::config::port::Port;

verus! {

/// Features of Loadstone that are optional or configurable.
#[derive(Clone, Debug, PartialEq, Eq)]
pub struct FeatureConfiguration {
    pub serial: Serial,
    pub boot_metrics: BootMetrics,
    pub greetings: Greetings,
}

impl Default for FeatureConfiguration {
    fn default() -> (r: Self)
        ensures
            r.serial is Disabled,
            r.boot_metrics is Disabled,
            r.greetings is Default,
    {
        FeatureConfiguration {
            serial: Serial::Disabled,
            boot_metrics: BootMetrics::Disabled,
            greetings: Greetings::Default,
        }
    }
}

/// Whether Loadstone relays boot information to the application.
#[derive(Copy, Clone, Debug, PartialEq, Eq)]
pub enum BootMetrics {
    Enabled {
        /// Whether the time between starting Loadstone and booting is recorded.
        timing: bool,
    },
    Disabled,
}

/// Custom greetings. If enabled, both Loadstone and the demo application
/// greet with them on startup.
#[derive(Clone, Debug, PartialEq, Eq)]
pub enum Greetings {
    Default,
    Custom { loadstone: String, demo: String },
}

/// Serial communication. If enabled, Loadstone reports on the boot process
/// over serial.
#[derive(Clone, Debug, PartialEq, Eq)]
pub enum Serial {
    Enabled {
        /// Whether a device with no bootable image can be recovered over serial.
        recovery_enabled: bool,
        /// Transmission pin (from Loadstone's side).
        tx_pin: PeripheralPin,
        /// Reception pin (from Loadstone's side).
        rx_pin: PeripheralPin,
    },
    Disabled,
}

/// Ports that can time the boot process.
pub open spec fn spec_timing_supported(port: Port) -> bool {
    port is Stm32F412
}

/// Ports with a serial driver.
pub open spec fn spec_serial_supported(port: Port) -> bool {
    port is Stm32F412
}

impl BootMetrics {
    /// Whether the port can time the boot process.
    pub fn timing_supported(port: &Port) -> (r: bool)
        ensures
            r == spec_timing_supported(*port),
    {
        match port {
            Port::Stm32F412 => true,
            Port::Wgm160P => false,
            Port::Maxim3263 => false,
        }
    }
}

impl Serial {
    /// Whether the port has a serial driver.
    pub fn supported(port: &Port) -> (r: bool)
        ensures
            r == spec_serial_supported(*port),
    {
        match port {
            Port::Stm32F412 => true,
            Port::Wgm160P => false,
            Port::Maxim3263 => false,
        }
    }

    /// Whether serial communication is enabled.
    pub fn enabled(&self) -> (r: bool)
        ensures
            r == (*self is Enabled),
    {
        matches!(self, Serial::Enabled { .. })
    }
}

} // verus!
