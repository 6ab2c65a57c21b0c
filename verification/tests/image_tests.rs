use loadstone::error::Error;
use loadstone::flash::{RamFlash, ReadWrite};
use loadstone::image::{image_at, Bank, Identifier, ImageCheck};

const TEST_IMAGE_WITH_CORRECT_CRC: &[u8] = &[
    0x68, 0x65, 0x6c, 0x6c, 0x6f, 0x20, 0x77, 0x6f, 0x72, 0x6c, 0x64, 0x0a, 0xb7, 0xac, 0x9c,
    0xc8, 0x9c, 0xcd, 0x8f, 0x8b, 0x86, 0x9b, 0xa5, 0xb7, 0xcd, 0xae, 0x94, 0x8e, 0xa5, 0xa8,
    0xaf, 0x9c, 0xb5, 0x98, 0xb8, 0xcc, 0xb5, 0x8b, 0x91, 0xb5, 0xc9, 0xa9, 0x8a, 0xbe, 0xf0,
    0xc9, 0x42, 0xad,
];

const TEST_IMAGE_WITH_BAD_CRC: &[u8] = &[
    0x68, 0x65, 0x6c, 0x6c, 0x6f, 0x20, 0x77, 0x6f, 0x72, 0x6c, 0x64, 0x0a, 0xb7, 0xac, 0x9c,
    0xc8, 0x9c, 0xcd, 0x8f, 0x8b, 0x86, 0x9b, 0xa5, 0xb7, 0xcd, 0xae, 0x94, 0x8e, 0xa5, 0xa8,
    0xaf, 0x9c, 0xb5, 0x98, 0xb8, 0xcc, 0xb5, 0x8b, 0x91, 0xb5, 0xc9, 0xa9, 0x8a, 0xbe, 0x77,
    0xc9, 0x42, 0xad,
];

fn bank() -> Bank {
    Bank { index: 1, size: 512, location: 0, bootable: false, is_golden: false }
}

fn flash_with(bytes: &[u8]) -> RamFlash {
    let mut flash = RamFlash::new(0, 2048);
    ReadWrite::write(&mut flash, 0, bytes).unwrap();
    flash
}

fn inverted_magic() -> Vec<u8> {
    loadstone::image::MAGIC_STRING.as_bytes().iter().map(|b| !b).collect()
}

#[test]
fn retrieving_image_with_correct_crc_succeeds() {
    let mut flash = flash_with(TEST_IMAGE_WITH_CORRECT_CRC);
    let bank = bank();
    let image = image_at(&mut flash, bank, &ImageCheck::Crc).unwrap();
    assert_eq!(image.size(), 12usize);
    assert_eq!(image.location(), bank.location);
    assert_eq!(image.is_bootable(), false);
    assert_eq!(image.is_golden(), false);
}

#[test]
fn retrieving_image_with_incorrect_crc_fails() {
    let mut flash = flash_with(TEST_IMAGE_WITH_BAD_CRC);
    assert_eq!(image_at(&mut flash, bank(), &ImageCheck::Crc).unwrap_err(), Error::CrcInvalid);
}

#[test]
fn crc_identifier_is_the_checksum_of_body_and_magic() {
    let mut flash = flash_with(TEST_IMAGE_WITH_CORRECT_CRC);
    let image = image_at(&mut flash, bank(), &ImageCheck::Crc).unwrap();
    assert_eq!(image.identifier(), Identifier::Crc(0xad42c9f0));
}

#[test]
fn empty_bank_is_reported() {
    let mut flash = RamFlash::new(0, 2048);
    assert_eq!(image_at(&mut flash, bank(), &ImageCheck::Crc).unwrap_err(), Error::BankEmpty);
}

#[test]
fn golden_image_is_recognised_and_its_string_not_counted() {
    let mut body = b"firmware".to_vec();
    body.extend_from_slice(loadstone::image::GOLDEN_STRING.as_bytes());
    body.extend(inverted_magic());
    let crc = crc::Crc::<u32>::new(&crc::CRC_32_ISO_HDLC).checksum(&body);
    body.extend_from_slice(&crc.to_le_bytes());
    let mut flash = flash_with(&body);
    let image = image_at(&mut flash, bank(), &ImageCheck::Crc).unwrap();
    assert!(image.is_golden());
    assert_eq!(image.size(), 8);
    assert_eq!(image.total_size(), 8 + 10 + 32 + 4);
}

use p256::ecdsa::signature::hazmat::{PrehashSigner, PrehashVerifier};
use p256::ecdsa::{Signature, SigningKey, VerifyingKey};
use sha2::Digest;

fn signing_key(seed: u8) -> SigningKey {
    let mut bytes = [0u8; 32];
    bytes[31] = seed;
    bytes[0] = 1;
    SigningKey::from_bytes((&bytes).into()).unwrap()
}

fn public_key(key: &SigningKey) -> Vec<u8> {
    VerifyingKey::from(key).to_encoded_point(false).as_bytes().to_vec()
}

fn signed_image(key: &SigningKey, body: &[u8], magic: &[u8]) -> Vec<u8> {
    let mut message = body.to_vec();
    message.extend_from_slice(magic);
    let digest = sha2::Sha256::digest(&message);
    let signature: Signature = key.sign_prehash(&digest).unwrap();
    message.extend_from_slice(&signature.to_bytes());
    message
}

#[test]
fn signed_image_is_accepted_with_its_key() {
    let key = signing_key(7);
    let bytes = signed_image(&key, b"signed firmware", &inverted_magic());
    let mut flash = flash_with(&bytes);
    let check = ImageCheck::P256Ecdsa(public_key(&key));
    let image = image_at(&mut flash, bank(), &check).unwrap();
    assert_eq!(image.size(), 15);
    assert!(!image.is_golden());
    assert!(matches!(image.identifier(), Identifier::Signature(s) if s[..] == bytes[15 + 32..]));
}

#[test]
fn signed_image_is_refused_with_another_key() {
    let key = signing_key(7);
    let other = signing_key(9);
    let bytes = signed_image(&key, b"signed firmware", &inverted_magic());
    let mut flash = flash_with(&bytes);
    let check = ImageCheck::P256Ecdsa(public_key(&other));
    assert_eq!(image_at(&mut flash, bank(), &check).unwrap_err(), Error::SignatureInvalid);
}

#[test]
fn corrupted_signed_image_is_refused() {
    let key = signing_key(7);
    let mut bytes = signed_image(&key, b"signed firmware", &inverted_magic());
    bytes[3] ^= 0x01;
    let mut flash = flash_with(&bytes);
    let check = ImageCheck::P256Ecdsa(public_key(&key));
    assert_eq!(image_at(&mut flash, bank(), &check).unwrap_err(), Error::SignatureInvalid);
}


// Images signed with the development key, and with another key.
const TEST_SIGNED_IMAGE: &[u8] = &[
    // Image
    0xaa, 0xbb,
    // Magic string inverted
    0xb7, 0xac, 0x9c, 0xc8, 0x9c, 0xcd, 0x8f, 0x8b,
    0x86, 0x9b, 0xa5, 0xb7, 0xcd, 0xae, 0x94, 0x8e,
    // Signature
    0xa5, 0xa8, 0xaf, 0x9c, 0xb5, 0x98, 0xb8, 0xcc,
    0xb5, 0x8b, 0x91, 0xb5, 0xc9, 0xa9, 0x8a, 0xbe,
    0x49, 0xdb, 0xc3, 0x82, 0x37, 0xff, 0x13, 0x9a,
    0x96, 0xb1, 0xb2, 0x37, 0x4a, 0x41, 0x35, 0x36,
    0xd4, 0xed, 0xc7, 0xdf, 0x00, 0x80, 0x54, 0xde,
    0x95, 0xbe, 0xc5, 0x1b, 0xbb, 0x89, 0xa9, 0x35,
    0x03, 0x62, 0xb0, 0xef, 0x73, 0x1f, 0x32, 0x4a,
    0x5e, 0x93, 0x8c, 0x78, 0x4e, 0xf5, 0x6a, 0x3f,
    0xf5, 0x8f, 0x99, 0xf6, 0x11, 0x67, 0xa6, 0xc2,
    0x12, 0xc7, 0xf5, 0xb3, 0x3b, 0xb0, 0x12, 0x8e,
];

const TEST_SIGNED_GOLDEN_IMAGE: &[u8] = &[
    // Image
    0xaa, 0xbb,
    // Golden String
    0x58, 0x50, 0x49, 0x63, 0x62, 0x4f, 0x55, 0x72, 0x70, 0x47,
    // Magic String Inverted
    0xb7, 0xac, 0x9c, 0xc8, 0x9c, 0xcd, 0x8f, 0x8b,
    0x86, 0x9b, 0xa5, 0xb7, 0xcd, 0xae, 0x94, 0x8e,
    // Signature
    0xa5, 0xa8, 0xaf, 0x9c, 0xb5, 0x98, 0xb8, 0xcc,
    0xb5, 0x8b, 0x91, 0xb5, 0xc9, 0xa9, 0x8a, 0xbe,
    0x8a, 0xb7, 0xcb, 0x03, 0x03, 0x53, 0xd2, 0xa3,
    0x9d, 0x42, 0x99, 0x3f, 0x94, 0xfc, 0x2d, 0x91,
    0x4b, 0x91, 0x50, 0xfb, 0xdc, 0x28, 0xaa, 0x11,
    0x31, 0xca, 0x4b, 0x4f, 0x74, 0x94, 0xe4, 0xeb,
    0x42, 0x93, 0x24, 0xd1, 0x73, 0x85, 0xcd, 0xd8,
    0x1f, 0x12, 0xbe, 0xcd, 0x4b, 0xdb, 0x9f, 0xcb,
    0x58, 0x0e, 0xef, 0xc6, 0x9e, 0xf2, 0xa3, 0x0e,
    0x7f, 0xa8, 0xbb, 0xf1, 0x26, 0x30, 0xec, 0x5a
];

const TEST_IMAGE_SIGNED_BY_ANOTHER_KEY: &[u8] = &[
    // Image
    0xaa, 0xbb,

    // Magic string inverted
    0xb7, 0xac, 0x9c, 0xc8, 0x9c, 0xcd, 0x8f, 0x8b,
    0x86, 0x9b, 0xa5, 0xb7, 0xcd, 0xae, 0x94, 0x8e,

    // Signature
    0xa5, 0xa8, 0xaf, 0x9c, 0xb5, 0x98, 0xb8, 0xcc,
    0xb5, 0x8b, 0x91, 0xb5, 0xc9, 0xa9, 0x8a, 0xbe,
    0x12, 0x77, 0x26, 0xc9, 0x13, 0x89, 0x38, 0xca,
    0x23, 0xb9, 0x3d, 0xc9, 0xdc, 0xad, 0xbc, 0x8b,
    0x41, 0x99, 0xe0, 0x89, 0x97, 0xf4, 0x7d, 0x88,
    0xaf, 0xc7, 0x8a, 0x5d, 0xf5, 0xaf, 0x37, 0xdd,
    0x45, 0x0e, 0x38, 0xdc, 0x74, 0x85, 0x72, 0x28,
    0x28, 0x54, 0x15, 0xdd, 0x15, 0x6c, 0x1b, 0x22,
    0xfe, 0x18, 0x40, 0x88, 0xcb, 0x26, 0x4e, 0x22,
    0x3b, 0x0a, 0xbd, 0x09, 0x73, 0x1d, 0x1b, 0x35,
];

const TEST_GOLDEN_IMAGE_SIGNED_BY_ANOTHER_KEY: &[u8] = &[
    // Image
    0xaa, 0xbb,
    // Golden string
    0x58, 0x50, 0x49, 0x63, 0x62, 0x4f, 0x55, 0x72, 0x70, 0x47,
    // Magic string inverted
    0xb7, 0xac, 0x9c, 0xc8, 0x9c, 0xcd, 0x8f, 0x8b,
    0x86, 0x9b, 0xa5, 0xb7, 0xcd, 0xae, 0x94, 0x8e,
    // Signature
    0xa5, 0xa8, 0xaf, 0x9c, 0xb5, 0x98, 0xb8, 0xcc,
    0xb5, 0x8b, 0x91, 0xb5, 0xc9, 0xa9, 0x8a, 0xbe,
    0xcf, 0x71, 0x77, 0x7f, 0x47, 0x4b, 0x3e, 0xd4,
    0x01, 0xaa, 0x65, 0x22, 0x78, 0x4a, 0x0f, 0x4a,
    0x84, 0x11, 0x65, 0xba, 0x7c, 0x85, 0x00, 0x8b,
    0x9c, 0x87, 0x78, 0xb3, 0x47, 0x36, 0xe8, 0x4d,
    0xb9, 0x24, 0x9f, 0x51, 0x2b, 0x34, 0x2f, 0x70,
    0x75, 0xe7, 0xdf, 0x77, 0x5e, 0x23, 0x8e, 0x92,
    0xf4, 0xe8, 0x3f, 0x79, 0xc2, 0xa3, 0x50, 0x5a,
    0xc7, 0x62, 0x74, 0x6e, 0xd2, 0x0b, 0x96, 0x84
];

fn signed_part(image: &[u8]) -> (&[u8], Signature) {
    let (message, signature) = image.split_at(image.len() - 64);
    (message, Signature::from_slice(signature).unwrap())
}

/// The public key the development images were signed with, recovered from
/// the signatures of the two of them: the one candidate that both verify.
fn development_key() -> Vec<u8> {
    let (message, signature) = signed_part(TEST_SIGNED_IMAGE);
    let (golden_message, golden_signature) = signed_part(TEST_SIGNED_GOLDEN_IMAGE);
    let digest = sha2::Sha256::digest(message);
    let golden_digest = sha2::Sha256::digest(golden_message);
    for id in 0u8..4 {
        if let Ok(key) = VerifyingKey::recover_from_prehash(&digest, &signature, id.try_into().unwrap()) {
            if key.verify_prehash(&golden_digest, &golden_signature).is_ok() {
                return key.to_encoded_point(false).as_bytes().to_vec();
            }
        }
    }
    panic!("no key verifies both development images");
}

fn development_check() -> ImageCheck {
    ImageCheck::P256Ecdsa(development_key())
}

#[test]
fn retrieving_signed_image_succeeds() {
    let mut flash = RamFlash::new(0, 2048);
    let bank = Bank { index: 1, size: 512, location: 0, bootable: false, is_golden: false };
    ReadWrite::write(&mut flash, 0, TEST_SIGNED_IMAGE).unwrap();

    let image = image_at(&mut flash, bank, &development_check()).unwrap();
    assert_eq!(image.size(), 2usize);
    assert_eq!(image.location(), bank.location);
    assert_eq!(image.is_bootable(), false);
    assert_eq!(image.is_golden(), false);
}

#[test]
fn retrieving_signed_golden_key_succeeds() {
    let mut flash = RamFlash::new(0, 2048);
    let bank = Bank { index: 1, size: 512, location: 0, bootable: false, is_golden: false };
    ReadWrite::write(&mut flash, 0, TEST_SIGNED_GOLDEN_IMAGE).unwrap();

    let image = image_at(&mut flash, bank, &development_check()).unwrap();
    assert_eq!(image.size(), 2usize);
    assert_eq!(image.location(), bank.location);
    assert_eq!(image.is_bootable(), false);
    assert_eq!(image.is_golden(), true);
}

#[test]
fn retrieving_images_signed_by_another_key_fails() {
    let mut flash = RamFlash::new(0, 2048);
    let bank = Bank { index: 1, size: 512, location: 0, bootable: false, is_golden: false };
    let check = development_check();

    ReadWrite::write(&mut flash, 0, TEST_IMAGE_SIGNED_BY_ANOTHER_KEY).unwrap();
    assert_eq!(Err(Error::SignatureInvalid), image_at(&mut flash, bank, &check));

    ReadWrite::write(&mut flash, 0, TEST_GOLDEN_IMAGE_SIGNED_BY_ANOTHER_KEY).unwrap();
    assert_eq!(Err(Error::SignatureInvalid), image_at(&mut flash, bank, &check));
}

#[test]
fn retrieving_broken_image_fails() {
    let mut flash = RamFlash::new(0, 2048);
    let bank = Bank { index: 1, size: 512, location: 0, bootable: false, is_golden: false };
    let check = development_check();

    let mut image: [u8; 98] = TEST_SIGNED_IMAGE.try_into().unwrap();
    image[0] = 0xCC; // Corrupted image body
    ReadWrite::write(&mut flash, 0, &image).unwrap();
    assert_eq!(Err(Error::SignatureInvalid), image_at(&mut flash, bank, &check));

    let mut image: [u8; 98] = TEST_SIGNED_IMAGE.try_into().unwrap();
    image[3] = 0xCC; // Corrupted magic string
    ReadWrite::write(&mut flash, 0, &image).unwrap();
    assert_eq!(Err(Error::BankEmpty), image_at(&mut flash, bank, &check));

    let mut image: [u8; 98] = TEST_SIGNED_IMAGE.try_into().unwrap();
    image[96] = 0xCC; // Corrupted signature
    ReadWrite::write(&mut flash, 0, &image).unwrap();
    assert_eq!(Err(Error::SignatureInvalid), image_at(&mut flash, bank, &check));
}

#[test]
fn a_signed_bank_starting_with_an_erased_byte_is_empty() {
    let key = signing_key(7);
    let bytes = signed_image(&key, b"\xFFbody", &inverted_magic());
    let mut flash = flash_with(&bytes);
    let check = ImageCheck::P256Ecdsa(public_key(&key));
    assert_eq!(image_at(&mut flash, bank(), &check).unwrap_err(), Error::BankEmpty);
}

#[test]
fn a_crc_image_may_start_with_an_erased_byte() {
    let mut body = b"\xFFbody".to_vec();
    body.extend(inverted_magic());
    let crc = crc::Crc::<u32>::new(&crc::CRC_32_ISO_HDLC).checksum(&body);
    body.extend_from_slice(&crc.to_le_bytes());
    let mut flash = flash_with(&body);
    assert_eq!(image_at(&mut flash, bank(), &ImageCheck::Crc).unwrap().size(), 5);
}

#[test]
fn a_signed_bank_whose_first_byte_cannot_be_read_is_invalid() {
    let key = signing_key(7);
    let mut flash = RamFlash::new(0, 2048);
    let outside = Bank { index: 1, size: 512, location: 4096, bootable: false, is_golden: false };
    let check = ImageCheck::P256Ecdsa(public_key(&key));
    assert_eq!(image_at(&mut flash, outside, &check).unwrap_err(), Error::BankInvalid);
}
