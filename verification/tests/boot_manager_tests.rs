use loadstone::boot_manager::{BootManager, Corruption, FlashTarget};
use loadstone::boot_metrics::BootMetrics;
use loadstone::error::Error;
use loadstone::flash::{RamFlash, ReadWrite};
use loadstone::image::{image_at, Bank, ImageCheck, MAGIC_STRING};

fn manager(with_external: bool) -> BootManager<RamFlash, RamFlash> {
    BootManager {
        external_banks: vec![Bank { index: 3, size: 512, location: 0, bootable: false, is_golden: false }],
        mcu_banks: vec![
            Bank { index: 1, size: 512, location: 0, bootable: true, is_golden: false },
            Bank { index: 2, size: 512, location: 512, bootable: false, is_golden: false },
        ],
        mcu_flash: RamFlash::new(0, 1024),
        external_flash: if with_external { Some(RamFlash::new(0, 512)) } else { None },
        boot_metrics: None,
        greeting: None,
    }
}

#[test]
fn storing_images() {
    let mut m = manager(true);
    assert_eq!(m.store_image_mcu(&[1, 2, 3], m.mcu_banks[0]).unwrap_err(), Error::BankInvalid);
    m.store_image_mcu(&[1, 2, 3], m.mcu_banks[1]).unwrap();
    assert_eq!(ReadWrite::read(&mut m.mcu_flash, 512, 3).unwrap(), vec![1, 2, 3]);
    let bank = m.external_banks[0];
    m.store_image_external(&[4, 5], bank).unwrap();
    assert_eq!(ReadWrite::read(m.external_flash.as_mut().unwrap(), 0, 2).unwrap(), vec![4, 5]);
    let mut m = manager(false);
    let bank = m.external_banks[0];
    assert_eq!(m.store_image_external(&[4, 5], bank).unwrap_err(), Error::NoExternalFlash);
}

#[test]
fn formatting_the_external_flash_erases_it() {
    let mut m = manager(true);
    let bank = m.external_banks[0];
    m.store_image_external(&[0, 0, 0], bank).unwrap();
    m.format_external().unwrap();
    assert_eq!(ReadWrite::read(m.external_flash.as_mut().unwrap(), 0, 3).unwrap(), vec![0xFF; 3]);
    assert_eq!(manager(false).format_external().unwrap_err(), Error::NoExternalFlash);
}

#[test]
fn only_valid_boot_metrics_are_kept() {
    let mut m = manager(false);
    m.load_boot_metrics(BootMetrics::new());
    assert!(m.boot_metrics.is_some());
    let mut corrupted = BootMetrics::new();
    corrupted.boot_magic_end = 0;
    m.load_boot_metrics(corrupted);
    assert!(m.boot_metrics.is_none());
    assert_eq!(m.boot_bank(), m.mcu_banks[0]);
}

fn crc_image(body: &[u8]) -> Vec<u8> {
    let mut bytes = body.to_vec();
    bytes.extend(MAGIC_STRING.as_bytes().iter().map(|b| !b));
    let crc = crc::Crc::<u32>::new(&crc::CRC_32_ISO_HDLC).checksum(&bytes);
    bytes.extend_from_slice(&crc.to_le_bytes());
    bytes
}

#[test]
fn corrupting_a_signature_flips_the_byte_after_the_magic_string() {
    let image = crc_image(b"firmware");
    let mut m = manager(true);
    let bank = m.external_banks[0];
    m.store_image_external(&image, bank).unwrap();
    let first = image[8 + 32];
    assert_eq!(m.corrupt_signature(3, &ImageCheck::Crc).unwrap(), Corruption::Flipped { from: first, to: !first });
    let external = m.external_flash.as_mut().unwrap();
    assert_eq!(ReadWrite::read(external, 40, 1).unwrap(), vec![!first]);
    assert_eq!(image_at(external, bank, &ImageCheck::Crc).unwrap_err(), Error::CrcInvalid);
    assert_eq!(m.corrupt_signature(1, &ImageCheck::Crc).unwrap(), Corruption::Untouched);

    let mut m = manager(false);
    assert_eq!(m.corrupt_signature(1, &ImageCheck::Crc).unwrap_err(), Error::BankEmpty);
    assert_eq!(m.corrupt_signature(9, &ImageCheck::Crc).unwrap(), Corruption::NoSuchBank);
    m.mcu_flash = RamFlash::new(0, 1024);
    ReadWrite::write(&mut m.mcu_flash, 512, &image).unwrap();
    assert_eq!(m.corrupt_signature(2, &ImageCheck::Crc).unwrap(), Corruption::Flipped { from: first, to: !first });
}

#[test]
fn corrupting_a_body_flips_its_second_byte() {
    let image = crc_image(b"firmware");
    let mut m = manager(true);
    let bank = m.external_banks[0];
    m.store_image_external(&image, bank).unwrap();
    assert_eq!(m.corrupt_body(3, &ImageCheck::Crc).unwrap(), Corruption::Flipped { from: b'i', to: !b'i' });
    let external = m.external_flash.as_mut().unwrap();
    assert_eq!(image_at(external, bank, &ImageCheck::Crc).unwrap_err(), Error::CrcInvalid);
    assert_eq!(m.corrupt_body(4, &ImageCheck::Crc).unwrap(), Corruption::NoSuchBank);
    assert_eq!(manager(false).corrupt_body(3, &ImageCheck::Crc).unwrap_err(), Error::NoExternalFlash);
}

#[test]
fn flash_targets_prefer_external_banks() {
    let m = manager(true);
    assert_eq!(m.flash_target(3), FlashTarget::External(m.external_banks[0]));
    assert_eq!(m.flash_target(2), FlashTarget::Mcu(m.mcu_banks[1]));
    assert_eq!(m.flash_target(7), FlashTarget::NoSuchBank);
}
