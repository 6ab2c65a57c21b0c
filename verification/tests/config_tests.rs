use p256::pkcs8::{EncodePublicKey, LineEnding};
use loadstone::config::features::{BootMetrics, Serial};
use loadstone::config::memory::{external_flash, internal_flash, Bank, FlashChip};
use loadstone::config::normalize::normalize;
use loadstone::config::pins::{peripheral_pin, pin_tokens, qspi, qspi_pin_alternatives, serial_rx, serial_tx, QspiPins};
use loadstone::config::port::Port;
use loadstone::config::security::SecurityMode;
use loadstone::config::port::linker_script;
use loadstone::config::{relocate_to_bootable_bank, Configuration, RequiredConfigurationStep};

#[test]
fn a_fresh_configuration_needs_a_boot_bank_and_a_key() {
    let config = Configuration::default();
    assert_eq!(
        config.required_configuration_steps(),
        vec![RequiredConfigurationStep::BootableBank, RequiredConfigurationStep::PublicKey]
    );
    assert!(!config.complete());
    assert_eq!(config.required_feature_flags(), vec!["stm32f412", "ecdsa-verify"]);
}

#[test]
fn a_crc_configuration_with_a_boot_bank_is_complete() {
    let mut config = Configuration::default();
    config.security_configuration.security_mode = SecurityMode::Crc;
    config.memory_configuration.internal_memory_map.banks.push(Bank { start_address: 0x0801_0000, size_kb: 64 });
    config.memory_configuration.internal_memory_map.bootable_index = Some(0);
    assert!(config.complete());
    assert_eq!(config.required_feature_flags(), vec!["stm32f412"]);
    assert_eq!(config.memory_configuration.bootable_address(), Some(0x0801_0000));
}

#[test]
fn cleanup_enforces_the_port_and_security_rules() {
    let mut config = Configuration::default();
    config.port = Port::Wgm160P;
    config.feature_configuration.serial = Serial::Enabled {
        recovery_enabled: true,
        tx_pin: peripheral_pin("USART1", "a", 9, 7),
        rx_pin: peripheral_pin("USART1", "b", 3, 7),
    };
    config.feature_configuration.boot_metrics = BootMetrics::Enabled { timing: true };
    config.security_configuration.security_mode = SecurityMode::Crc;
    config.security_configuration.verifying_key_raw = "key".to_owned();
    config.memory_configuration.golden_index = Some(3);
    config.memory_configuration.external_flash = external_flash(&Port::Stm32F412).pop();
    config.memory_configuration.external_memory_map.banks.push(Bank { start_address: 0, size_kb: 4 });
    config.cleanup();
    assert_eq!(config.feature_configuration.serial, Serial::Disabled);
    assert_eq!(config.feature_configuration.boot_metrics, BootMetrics::Enabled { timing: false });
    assert!(config.security_configuration.verifying_key_raw.is_empty());
    assert_eq!(config.memory_configuration.golden_index, None);
    assert_eq!(config.memory_configuration.external_flash, None);
    assert!(config.memory_configuration.external_memory_map.banks.is_empty());
}

#[test]
fn cleanup_keeps_a_clean_configuration() {
    let mut config = Configuration::default();
    config.memory_configuration.internal_memory_map.banks.push(Bank { start_address: 0x0801_0000, size_kb: 64 });
    config.memory_configuration.external_flash = external_flash(&Port::Stm32F412).pop();
    config.memory_configuration.external_memory_map.banks.push(Bank { start_address: 0, size_kb: 4 });
    config.memory_configuration.golden_index = Some(1);
    let before = config.clone();
    config.cleanup();
    assert_eq!(config, before);
}

#[test]
fn cleanup_drops_a_golden_index_left_past_the_banks_it_keeps() {
    let mut config = Configuration::default();
    config.port = Port::Wgm160P;
    config.memory_configuration.internal_memory_map.banks.push(Bank { start_address: 0, size_kb: 64 });
    config.memory_configuration.external_flash = external_flash(&Port::Stm32F412).pop();
    config.memory_configuration.external_memory_map.banks.push(Bank { start_address: 0, size_kb: 4 });
    config.memory_configuration.golden_index = Some(1);
    config.cleanup();
    assert!(config.memory_configuration.external_memory_map.banks.is_empty());
    assert_eq!(config.memory_configuration.golden_index, None);
}

#[test]
fn cleanup_caps_the_number_of_banks() {
    let mut config = Configuration::default();
    for i in 0..300u32 {
        config.memory_configuration.internal_memory_map.banks.push(Bank { start_address: i, size_kb: 1 });
    }
    config.cleanup();
    assert_eq!(config.memory_configuration.internal_memory_map.banks.len(), 255);
    assert_eq!(config.memory_configuration.internal_memory_map.banks[254].start_address, 254);
}

#[test]
fn normalize_lays_banks_out_after_the_bootloader() {
    let port = Port::Stm32F412;
    let chip = internal_flash(&port);
    let mut config = Configuration::default();
    let memory = &mut config.memory_configuration;
    memory.internal_memory_map.bootloader_length_kb = 70;
    memory.internal_memory_map.banks = vec![
        Bank { start_address: 0, size_kb: 128 },
        Bank { start_address: 5, size_kb: 256 },
        Bank { start_address: 7, size_kb: 1024 },
    ];
    memory.internal_memory_map.bootable_index = Some(0);
    memory.golden_index = Some(0);
    memory.external_flash = external_flash(&port).pop();
    memory.external_memory_map.banks = vec![Bank { start_address: 99, size_kb: 8192 }, Bank { start_address: 3, size_kb: 8192 }];
    let mut external: Option<FlashChip> = memory.external_flash.clone();
    normalize(
        &mut memory.internal_memory_map,
        &mut memory.external_memory_map,
        &chip,
        &mut external,
        &mut memory.golden_index,
        &port,
    );
    let banks = &memory.internal_memory_map.banks;
    assert_eq!(memory.internal_memory_map.bootloader_location, 0x0800_0000);
    assert_eq!(banks.len(), 2);
    assert_eq!(banks[0].start_address, 0x0801_4000);
    assert_eq!(banks[1].start_address, banks[0].end_address());
    assert_eq!(memory.golden_index, None);
    assert_eq!(memory.internal_memory_map.bootable_index, Some(0));
    let ext = &memory.external_memory_map.banks;
    assert_eq!(ext.len(), 1);
    assert_eq!(ext[0].start_address, 0);
    assert!(external.is_some());
}

#[test]
fn normalize_drops_an_unknown_external_chip() {
    let port = Port::Wgm160P;
    let chip = internal_flash(&port);
    let mut config = Configuration::default();
    let memory = &mut config.memory_configuration;
    let mut external = external_flash(&Port::Stm32F412).pop();
    memory.external_memory_map.banks = vec![Bank { start_address: 0, size_kb: 4 }];
    normalize(
        &mut memory.internal_memory_map,
        &mut memory.external_memory_map,
        &chip,
        &mut external,
        &mut memory.golden_index,
        &port,
    );
    assert!(external.is_none());
    assert!(memory.external_memory_map.banks.is_empty());
}

#[test]
fn pin_tables() {
    assert_eq!(serial_tx(&Port::Stm32F412).len(), 8);
    assert_eq!(serial_rx(&Port::Stm32F412)[0], peripheral_pin("USART1", "b", 3, 7));
    assert!(serial_tx(&Port::Maxim3263).is_empty());
    assert_eq!(QspiPins::create(Port::Stm32F412).clk, peripheral_pin("QSPI", "b", 2, 9));
}

#[test]
fn port_descriptions() {
    assert_eq!(Port::Stm32F412.name(), "stm32f412");
    assert_eq!(Port::Wgm160P.family().name(), "efm32");
    assert_eq!(Port::Maxim3263.subfamily().name(), "63");
    assert_eq!(Port::Stm32F412.linker_script_constants().unwrap().flash.size, 896 * 1024);
    assert_eq!(internal_flash(&Port::Stm32F412).end, 0x0810_0000);
}

#[test]
fn linker_script_text() {
    let constants = Port::Stm32F412.linker_script_constants().unwrap();
    let text = String::from_utf8(linker_script(&constants)).unwrap();
    assert_eq!(
        text,
        "MEMORY\n{\n    FLASH : ORIGIN = 0x08000000, LENGTH = 896K\n    RAM : ORIGIN = 0x20000000, LENGTH = 256K\n}\n"
    );
}

#[test]
fn relocating_moves_flash_to_the_bootable_bank() {
    let mut config = Configuration::default();
    let mut constants = Port::Stm32F412.linker_script_constants().unwrap();
    assert!(relocate_to_bootable_bank(&mut constants, &config).is_err());
    config.memory_configuration.internal_memory_map.banks.push(Bank { start_address: 0x0801_0000, size_kb: 64 });
    config.memory_configuration.internal_memory_map.bootable_index = Some(0);
    relocate_to_bootable_bank(&mut constants, &config).unwrap();
    assert_eq!(constants.flash.origin, 0x0801_0000);
    assert_eq!(constants.flash.size, 896 * 1024 - 0x1_0000);
}

#[test]
fn pins_are_named_after_bank_index_and_alternate_function() {
    assert_eq!(pin_tokens(&peripheral_pin("QSPI", "b", 2, 9)), ("Pb2".to_owned(), "AF9".to_owned()));
    assert_eq!(pin_tokens(&peripheral_pin("QSPI", "d", 13, 10)), ("Pd13".to_owned(), "AF10".to_owned()));
    assert_eq!(pin_tokens(&peripheral_pin("USART1", "a", 0, 0)), ("Pa0".to_owned(), "AF0".to_owned()));
}

#[test]
fn qspi_alternatives_leave_out_the_chosen_pins() {
    let port = Port::Stm32F412;
    let chosen = QspiPins::create(port);
    let alternatives = qspi_pin_alternatives(&qspi(port), &chosen);
    assert_eq!(alternatives.len(), 6);
    assert_eq!(alternatives[0], vec![peripheral_pin("QSPI", "b", 1, 9), peripheral_pin("QSPI", "d", 3, 9)]);
    assert_eq!(alternatives[1], vec![peripheral_pin("QSPI", "b", 6, 10)]);
    assert_eq!(alternatives[2], vec![peripheral_pin("QSPI", "c", 9, 9), peripheral_pin("QSPI", "d", 11, 9)]);
    assert_eq!(alternatives[5], vec![peripheral_pin("QSPI", "a", 1, 10), peripheral_pin("QSPI", "d", 13, 10)]);
    assert!(qspi_pin_alternatives(&qspi(Port::Wgm160P), &chosen).iter().all(|l| l.is_empty()));
}

#[test]
fn the_key_file_is_the_sec1_encoding_of_the_configured_pem_key() {
    let mut secret = [0u8; 32];
    secret[0] = 1;
    secret[31] = 7;
    let signing = p256::ecdsa::SigningKey::from_bytes((&secret).into()).unwrap();
    let verifying = p256::ecdsa::VerifyingKey::from(&signing);
    let pem = verifying.to_public_key_pem(LineEnding::LF).unwrap();
    let mut security = loadstone::config::security::SecurityConfiguration::default();
    security.verifying_key_raw = pem;
    let expected = verifying.to_encoded_point(false).as_bytes().to_vec();
    assert_eq!(security.key_file(), expected);
    assert_eq!(security.checked_key_file(), Some(expected));
    security.verifying_key_raw = "not a key".to_owned();
    assert_eq!(security.checked_key_file(), None);
    security.security_mode = SecurityMode::Crc;
    assert_eq!(security.checked_key_file(), None);
}
