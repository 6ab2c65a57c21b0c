use loadstone::flash::mcu::{self, Address as McuAddress, McuFlash, Range};
use loadstone::flash::micron::{
    Address, MemoryMap, MicronN25q128a, MANUFACTURER_ID, NUMBER_OF_PAGES, NUMBER_OF_SECTORS,
    NUMBER_OF_SUBSECTORS, PAGES_PER_SECTOR, PAGES_PER_SUBSECTOR, PAGE_SIZE, SECTOR_SIZE,
    SUBSECTORS_PER_SECTOR, SUBSECTOR_SIZE,
};
use loadstone::flash::{RamFlash, RamNor, ReadWrite};

fn micron_cells() -> RamNor {
    RamNor::new(0, loadstone::flash::micron::MEMORY_SIZE, MANUFACTURER_ID)
}

#[test]
fn micron_n25q128a_initialisation_succeeds_for_correct_manufacturer_id() {
    const WRONG_MANUFACTURER_ID: u8 = 0x21;
    assert!(MicronN25q128a::new(RamNor::new(0, 16, WRONG_MANUFACTURER_ID)).is_err());
    assert!(MicronN25q128a::new(RamNor::new(0, 16, MANUFACTURER_ID)).is_ok());
}

#[test]
fn n25q128a_flash_initialisation_succeeds_for_correct_manufacturer_id() {
    const WRONG_MANUFACTURER_ID: u8 = 0x21;
    assert!(MicronN25q128a::new(RamNor::new(0, 16, WRONG_MANUFACTURER_ID)).is_err());
    assert!(MicronN25q128a::new(RamNor::new(0, 16, MANUFACTURER_ID)).is_ok());
}

#[test]
fn various_memory_map_iterations() {
    assert_eq!(MemoryMap::sectors().len(), NUMBER_OF_SECTORS);
    assert_eq!(MemoryMap::subsectors().len(), NUMBER_OF_SUBSECTORS);
    assert_eq!(MemoryMap::pages().len(), NUMBER_OF_PAGES);

    let expected_address = Address((3 * SECTOR_SIZE + 3 * SUBSECTOR_SIZE) as u32);
    let expected_index = 3 * SUBSECTORS_PER_SECTOR + 3;
    let subsector = MemoryMap::sectors()[3].subsectors()[3];
    assert_eq!(expected_address, subsector.location());
    assert_eq!(subsector.0, expected_index);

    let expected_address = Address((1 * SECTOR_SIZE + 2 * SUBSECTOR_SIZE + 3 * PAGE_SIZE) as u32);
    let expected_index = 1 * PAGES_PER_SECTOR + 2 * PAGES_PER_SUBSECTOR + 3;
    let page = MemoryMap::sectors()[1].subsectors()[2].pages()[3];
    assert_eq!(expected_address, page.location());
    assert_eq!(page.0, expected_index);
}

#[test]
fn ranges_span_the_correct_sectors() {
    let range = Range(McuAddress(0x0801_1234), McuAddress(0x0804_5678));
    let map = mcu::memory_map();
    let expected_sectors = &map.sectors[4..7];
    assert_eq!(expected_sectors, range.span().as_slice());
}

#[test]
fn micron_write_reads_back_across_subsectors() {
    let mut flash = MicronN25q128a::new(micron_cells()).unwrap();
    let data: Vec<u8> = (0..5000u32).map(|i| (i % 251) as u8).collect();
    let at = Address((SUBSECTOR_SIZE - 100) as u32);
    flash.write(at, &data).unwrap();
    assert_eq!(flash.read(at, data.len()).unwrap(), data);
    // Writing over programmed bytes with other values erases and merges.
    let other = vec![0x5Au8; 300];
    flash.write(at, &other).unwrap();
    let read = flash.read(at, data.len()).unwrap();
    assert_eq!(&read[..300], &other[..]);
    assert_eq!(&read[300..], &data[300..]);
}

#[test]
fn micron_rejects_writes_past_the_chip() {
    let mut flash = MicronN25q128a::new(micron_cells()).unwrap();
    let at = Address((loadstone::flash::micron::MEMORY_SIZE - 2) as u32);
    assert!(flash.write(at, &[1, 2, 3]).is_err());
    assert!(flash.read(at, 3).is_err());
}

#[test]
fn mcu_flash_write_reads_back() {
    let nor = RamNor::new(0x0800_0000, 0x10_0000, 0);
    let mut flash = McuFlash::new(nor).unwrap();
    let at = McuAddress(0x0802_0000);
    let data: Vec<u8> = (0..1000u32).map(|i| (i * 7 % 256) as u8).collect();
    flash.write(at, &data).unwrap();
    assert_eq!(flash.read(at, data.len()).unwrap(), data);
}

#[test]
fn mcu_flash_rejects_misaligned_and_bootloader_accesses() {
    let nor = RamNor::new(0x0800_0000, 0x10_0000, 0);
    let mut flash = McuFlash::new(nor).unwrap();
    assert_eq!(
        flash.read(McuAddress(0x0802_0001), 4).unwrap_err(),
        mcu::Error::MisalignedAccess
    );
    assert_eq!(
        flash.write(McuAddress(0x0800_0000), &[1, 2, 3, 4]).unwrap_err(),
        mcu::Error::MemoryNotReachable
    );
}

#[test]
fn ram_flash_write_reads_back_and_leaves_the_rest() {
    let mut flash = RamFlash::new(0, 64);
    ReadWrite::write(&mut flash, 10, &[1, 2, 3]).unwrap();
    let read = ReadWrite::read(&mut flash, 8, 7).unwrap();
    assert_eq!(read, vec![0xFF, 0xFF, 1, 2, 3, 0xFF, 0xFF]);
    assert!(ReadWrite::read(&mut flash, 60, 8).is_err());
}

#[test]
fn a_range_inside_one_sector_spans_that_sector() {
    let range = Range(McuAddress(0x0801_1000), McuAddress(0x0801_2000));
    let map = mcu::memory_map();
    assert_eq!(&map.sectors[4..5], range.span().as_slice());
}

#[test]
fn mcu_flash_write_inside_one_main_sector_succeeds() {
    let nor = RamNor::new(0x0800_0000, 0x10_0000, 0);
    let mut flash = McuFlash::new(nor).unwrap();
    let at = McuAddress(0x0801_1000);
    let data = vec![0x12u8, 0x34, 0x56, 0x78, 0x9A, 0xBC, 0xDE, 0xF0];
    flash.write(at, &data).unwrap();
    assert_eq!(flash.read(at, data.len()).unwrap(), data);
    assert_eq!(flash.read(McuAddress(0x0801_0FFC), 4).unwrap(), vec![0xFF; 4]);
}

fn busy_micron() -> MicronN25q128a<RamNor> {
    let mut cells = micron_cells();
    cells.busy = true;
    MicronN25q128a::new(cells).unwrap()
}

#[test]
fn micron_n25q128a_write_capable_commands_yield_if_device_busy() {
    let mut flash = busy_micron();
    assert_eq!(
        loadstone::flash::BulkErase::erase(&mut flash),
        Err(loadstone::error::Error::DriverError("External flash is busy"))
    );
    assert_eq!(flash.write(Address(0), &[1, 2]), Err(loadstone::flash::micron::Error::WouldBlock));
}

#[test]
fn n25q128a_flash_write_capable_commands_yield_if_device_busy() {
    let mut flash = busy_micron();
    assert_eq!(flash.write(Address(0x1000), &[0xAA]), Err(loadstone::flash::micron::Error::WouldBlock));
    assert_eq!(flash.read(Address(0x1000), 1), Err(loadstone::flash::micron::Error::WouldBlock));
}

#[test]
fn mcu_flash_write_yields_while_busy() {
    let mut nor = RamNor::new(0x0800_0000, 0x10_0000, 0);
    nor.busy = true;
    let mut flash = McuFlash::new(nor).unwrap();
    assert_eq!(flash.write(McuAddress(0x0802_0000), &[1, 2, 3, 4]), Err(mcu::Error::WouldBlock));
    assert_eq!(flash.write(McuAddress(0x0800_0000), &[1, 2, 3, 4]), Err(mcu::Error::MemoryNotReachable));
}
