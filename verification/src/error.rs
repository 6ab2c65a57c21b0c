//! Top level error type shared by the bootloader and the boot manager.

use vstd::prelude::*;

verus! {

/// Top level error type for the bootloader. Unlike the specific module
/// errors, this error carries textual descriptions of the problem, as it is
/// meant to be reported directly through a serial console.
#[derive(Debug, Copy, Clone, PartialEq, Eq)]
pub enum Error {
    /// Error caused by a low level peripheral driver.
    DriverError(&'static str),
    /// Error caused by a faulty configuration.
    ConfigurationError(&'static str),
    /// Error caused by a high level device driver.
    DeviceError(&'static str),
    BankInvalid,
    BankEmpty,
    ImageTooBig,
    ImageIsNotGolden,
    NoGoldenBankSupport,
    FlashCorrupted,
    NoExternalFlash,
    NoImageToRestoreFrom,
    NoRecoverySupport,
    SignatureInvalid,
    CrcInvalid,
    NotEnoughData,
}

/// Category label under which an error is reported.
pub open spec fn category_of(e: Error) -> &'static str {
    match e {
        Error::DriverError(_) => "Driver Error",
        Error::ConfigurationError(_) => "Configuration Error",
        Error::DeviceError(_) => "Device Error",
        Error::NotEnoughData => "Transfer Error",
        Error::SignatureInvalid => "LogicError",
        _ => "Logic Error",
    }
}

/// Human readable description of an error.
pub open spec fn description_of(e: Error) -> &'static str {
    match e {
        Error::DriverError(text) => text,
        Error::ConfigurationError(text) => text,
        Error::DeviceError(text) => text,
        Error::ImageTooBig => "Firmware image too big",
        Error::BankInvalid => "Bank doesn't exist or is invalid in this context",
        Error::BankEmpty => "Bank is empty (contains no firmware image)",
        Error::FlashCorrupted => "Flash memory is corrupted or outdated",
        Error::SignatureInvalid => "Image signature is invalid",
        Error::NoImageToRestoreFrom => "No image to restore from",
        Error::NoExternalFlash => "No external flash in this configuration",
        Error::ImageIsNotGolden => "Image is not golden",
        Error::NoGoldenBankSupport => "No golden bank support",
        Error::NoRecoverySupport => "No image recovery support",
        Error::CrcInvalid => "Image CRC is invalid",
        Error::NotEnoughData => "Not enough image data received",
    }
}

impl Error {
    /// Label of the family of problems this error belongs to, as shown
    /// between brackets when the error is reported.
    pub fn category(&self) -> (r: &'static str)
        ensures
            r == category_of(*self),
    {
        match self {
            Error::DriverError(_) => "Driver Error",
            Error::ConfigurationError(_) => "Configuration Error",
            Error::DeviceError(_) => "Device Error",
            Error::NotEnoughData => "Transfer Error",
            Error::SignatureInvalid => "LogicError",
            _ => "Logic Error",
        }
    }

    /// Human readable description of the problem, as reported through serial
    /// after the category label.
    pub fn description(&self) -> (r: &'static str)
        ensures
            r == description_of(*self),
    {
        match self {
            Error::DriverError(text) => text,
            Error::ConfigurationError(text) => text,
            Error::DeviceError(text) => text,
            Error::ImageTooBig => "Firmware image too big",
            Error::BankInvalid => "Bank doesn't exist or is invalid in this context",
            Error::BankEmpty => "Bank is empty (contains no firmware image)",
            Error::FlashCorrupted => "Flash memory is corrupted or outdated",
            Error::SignatureInvalid => "Image signature is invalid",
            Error::NoImageToRestoreFrom => "No image to restore from",
            Error::NoExternalFlash => "No external flash in this configuration",
            Error::ImageIsNotGolden => "Image is not golden",
            Error::NoGoldenBankSupport => "No golden bank support",
            Error::NoRecoverySupport => "No image recovery support",
            Error::CrcInvalid => "Image CRC is invalid",
            Error::NotEnoughData => "Not enough image data received",
        }
    }
}

} // verus!
