use loadstone::boot_metrics::{BootMetrics, BootPath};
use loadstone::bootloader::{BootDecision, Bootloader, RecoveryStep, UpdatePlan};
use loadstone::error::Error;
use loadstone::flash::{RamFlash, ReadWrite};
use loadstone::image::{image_at, Bank, ImageCheck, GOLDEN_STRING, MAGIC_STRING};

const BANK_SIZE: usize = 1024;

fn crc_image(body: &[u8], golden: bool) -> Vec<u8> {
    let mut bytes = body.to_vec();
    if golden {
        bytes.extend_from_slice(GOLDEN_STRING.as_bytes());
    }
    bytes.extend(MAGIC_STRING.as_bytes().iter().map(|b| !b));
    let crc = crc::Crc::<u32>::new(&crc::CRC_32_ISO_HDLC).checksum(&bytes);
    bytes.extend_from_slice(&crc.to_le_bytes());
    bytes
}

fn bank(index: u8, bootable: bool, is_golden: bool) -> Bank {
    Bank {
        index,
        size: BANK_SIZE,
        location: (index as usize - 1) * BANK_SIZE,
        bootable,
        is_golden,
    }
}

fn bootloader(images: &[(usize, Vec<u8>)], plan: Option<UpdatePlan>) -> Bootloader<RamFlash, RamFlash> {
    let mut mcu_flash = RamFlash::new(0, 3 * BANK_SIZE);
    for (bank_index, bytes) in images {
        ReadWrite::write(&mut mcu_flash, (bank_index - 1) * BANK_SIZE, bytes).unwrap();
    }
    Bootloader {
        mcu_flash,
        external_flash: None,
        mcu_banks: vec![bank(1, true, false), bank(2, false, false), bank(3, false, true)],
        external_banks: vec![],
        boot_metrics: BootMetrics::new(),
        recovery_enabled: true,
        serial_enabled: true,
        update_plan: plan,
        check: ImageCheck::Crc,
        greeting: "test bootloader",
    }
}

#[test]
fn bank_layout_checks() {
    let bl = bootloader(&[], None);
    assert!(bl.bank_layout_is_correct());
    bl.verify_bank_correctness();
    let mut bad = bootloader(&[], None);
    bad.mcu_banks[1].bootable = true;
    assert!(!bad.bank_layout_is_correct());
    let mut bad = bootloader(&[], None);
    bad.mcu_banks[1].is_golden = true;
    assert!(!bad.bank_layout_is_correct());
    let mut bad = bootloader(&[], None);
    bad.mcu_banks[2].index = 4;
    assert!(!bad.bank_layout_is_correct());
    let mut bad = bootloader(&[], None);
    bad.external_banks.push(bank(4, false, false));
    assert!(!bad.bank_layout_is_correct());
}

#[test]
fn boot_bank_is_the_bootable_one() {
    let bl = bootloader(&[], None);
    assert_eq!(bl.boot_bank(), bank(1, true, false));
}

#[test]
fn a_different_image_in_another_bank_is_an_update() {
    let mut bl = bootloader(&[(1, crc_image(b"old", false)), (2, crc_image(b"newer", false))], Some(UpdatePlan::Any));
    let image = bl.latest_bootable_image(&[]).unwrap();
    assert_eq!(image.size(), 5);
    assert_eq!(image.location(), 0);
    assert_eq!(bl.boot_metrics.boot_path, BootPath::Updated { bank: 2 });
}

#[test]
fn the_same_image_is_already_up_to_date() {
    let image_bytes = crc_image(b"same", false);
    let mut bl = bootloader(&[(1, image_bytes.clone()), (2, image_bytes)], Some(UpdatePlan::Any));
    let image = bl.latest_bootable_image(&[]).unwrap();
    assert_eq!(image.size(), 4);
    assert_eq!(bl.boot_metrics.boot_path, BootPath::Direct);
}

#[test]
fn no_update_signal_keeps_the_current_image() {
    let mut bl = bootloader(&[(1, crc_image(b"old", false)), (2, crc_image(b"newer", false))], Some(UpdatePlan::NoUpdate));
    let image = bl.latest_bootable_image(&[]).unwrap();
    assert_eq!(image.size(), 3);
    assert_eq!(bl.boot_metrics.boot_path, BootPath::Direct);
}

#[test]
fn golden_banks_are_never_updated_from() {
    let mut bl = bootloader(&[(1, crc_image(b"old", false)), (3, crc_image(b"gold", true))], Some(UpdatePlan::Any));
    let image = bl.latest_bootable_image(&[]).unwrap();
    assert_eq!(image.size(), 3);
    assert_eq!(bl.boot_metrics.boot_path, BootPath::Direct);
}

#[test]
fn an_update_signal_index_restricts_the_source() {
    let mut bl = bootloader(&[(1, crc_image(b"old", false)), (2, crc_image(b"newer", false))], Some(UpdatePlan::Index(3)));
    let image = bl.latest_bootable_image(&[]).unwrap();
    assert_eq!(image.size(), 3);
}

#[test]
fn a_serial_update_writes_the_received_image() {
    let mut bl = bootloader(&[(1, crc_image(b"old", false))], Some(UpdatePlan::Serial));
    let image = bl.latest_bootable_image(&crc_image(b"from serial", false)).unwrap();
    assert_eq!(image.size(), 11);
    let mut bl = bootloader(&[(1, crc_image(b"old", false))], Some(UpdatePlan::Serial));
    assert!(bl.latest_bootable_image(b"garbage").is_none());
}

#[test]
fn restoring_copies_the_first_valid_image() {
    let mut bl = bootloader(&[(2, crc_image(b"backup", false)), (3, crc_image(b"gold", true))], None);
    assert!(bl.latest_bootable_image(&[]).is_none());
    let image = bl.restore().unwrap();
    assert_eq!(image.size(), 6);
    assert_eq!(image.location(), 0);
    assert_eq!(bl.boot_metrics.boot_path, BootPath::Restored { bank: 2 });
}

#[test]
fn golden_images_are_the_last_resort() {
    let mut bl = bootloader(&[(3, crc_image(b"gold", true))], None);
    let image = bl.restore().unwrap();
    assert!(image.is_golden());
    assert_eq!(bl.boot_metrics.boot_path, BootPath::Restored { bank: 3 });
    let scanned = image_at(&mut bl.mcu_flash, bank(1, true, false), &ImageCheck::Crc).unwrap();
    assert_eq!(scanned, image);
}

#[test]
fn nothing_to_restore_from() {
    let mut bl = bootloader(&[], None);
    assert_eq!(bl.restore().unwrap_err(), Error::NoImageToRestoreFrom);
}

#[test]
fn run_decisions() {
    let mut bl = bootloader(&[(1, crc_image(b"current", false))], None);
    assert!(matches!(bl.run(&[]), BootDecision::Boot(i) if i.size() == 7));

    let mut bl = bootloader(&[(2, crc_image(b"backup", false))], None);
    assert!(matches!(bl.run(&[]), BootDecision::Boot(i) if i.size() == 6));

    let mut bl = bootloader(&[], None);
    assert_eq!(bl.run(&[]), BootDecision::Recover);

    let mut bl = bootloader(&[], None);
    bl.recovery_enabled = false;
    assert_eq!(bl.run(&[]), BootDecision::Halt);
}

#[test]
fn recovery_prefers_the_golden_bank() {
    let bl = bootloader(&[], None);
    assert_eq!(bl.recover(), RecoveryStep::Internal { golden: true });
    let mut no_golden = bootloader(&[], None);
    no_golden.mcu_banks[2].is_golden = false;
    assert_eq!(no_golden.recover(), RecoveryStep::Internal { golden: false });
}

#[test]
fn recovering_checks_the_received_image() {
    let mut bl = bootloader(&[], None);
    assert_eq!(bl.recover_internal(true, &crc_image(b"plain", false)).unwrap_err(), Error::ImageIsNotGolden);
    assert!(bl.recover_internal(true, &crc_image(b"gold", true)).is_ok());
    let mut bl = bootloader(&[], None);
    bl.serial_enabled = false;
    assert_eq!(bl.recover_internal(true, &crc_image(b"gold", true)).unwrap_err(), Error::NoRecoverySupport);
    let mut bl = bootloader(&[], None);
    assert_eq!(bl.recover_external(true, &crc_image(b"gold", true)).unwrap_err(), Error::NoGoldenBankSupport);
}

#[test]
fn boot_records_the_time() {
    let mut bl = bootloader(&[], None);
    let metrics = bl.boot(Some(42));
    assert_eq!(metrics.boot_time_ms, Some(42));
    assert!(metrics.is_valid());
}

#[test]
fn recovery_without_golden_banks_flashes_the_bootable_bank() {
    let mut bl = bootloader(&[], None);
    bl.mcu_banks = vec![bank(1, false, false), bank(2, true, false), bank(3, false, false)];
    assert_eq!(bl.recover(), RecoveryStep::Internal { golden: false });
    let image = crc_image(b"recovered", false);
    bl.recover_internal(false, &image).unwrap();
    assert_eq!(ReadWrite::read(&mut bl.mcu_flash, BANK_SIZE, image.len()).unwrap(), image);
    assert_eq!(ReadWrite::read(&mut bl.mcu_flash, 0, 16).unwrap(), vec![0xFF; 16]);
}

#[test]
fn errors_are_reported_under_their_category() {
    assert_eq!(Error::BankEmpty.category(), "Logic Error");
    assert_eq!(Error::SignatureInvalid.category(), "LogicError");
    assert_eq!(Error::SignatureInvalid.description(), "Image signature is invalid");
    assert_eq!(Error::DriverError("bus").category(), "Driver Error");
    assert_eq!(Error::DriverError("bus").description(), "bus");
}

#[test]
fn a_serial_image_is_only_wanted_over_a_current_image() {
    let mut bl = bootloader(&[(1, crc_image(b"current", false))], Some(UpdatePlan::Serial));
    assert!(bl.needs_serial_image());
    let mut bl = bootloader(&[], Some(UpdatePlan::Serial));
    assert!(!bl.needs_serial_image());
    let mut bl = bootloader(&[(1, crc_image(b"current", false))], Some(UpdatePlan::Any));
    assert!(!bl.needs_serial_image());
}

struct FixedSignal(UpdatePlan);

impl loadstone::bootloader::ReadUpdateSignal for FixedSignal {
    fn read_update_plan(&self) -> UpdatePlan {
        self.0
    }
}

#[test]
fn the_update_plan_is_read_from_the_signal() {
    let mut bl = bootloader(&[], None);
    bl.read_update_signal(&FixedSignal(UpdatePlan::Index(2)));
    assert_eq!(bl.update_plan, Some(UpdatePlan::Index(2)));
    bl.read_update_signal(&FixedSignal(UpdatePlan::Serial));
    assert_eq!(bl.update_plan, Some(UpdatePlan::Serial));
}
