//! Loadstone: a secure bootloader and its companion tooling, expressed as a
//! verified library. Flash layouts, image scanning, the bootloader's update,
//! restore and recovery decisions, the demo application's command line parser,
//! LED and serial configuration logic, and the configuration tool's invariant
//! enforcement all live here with machine-checked contracts.

pub mod error;
pub mod boot_metrics;
pub mod flash;
pub mod image;
pub mod bootloader;
pub mod cli;
pub mod led;
pub mod boot_manager;
pub mod config;
pub mod drivers;
pub mod xmodem;
