//! Firmware image inspection.
//!
//! A flash memory is partitioned into image banks. A bank holds at most one
//! firmware image, laid out as the image body, an optional golden string
//! (for golden images), the magic string inverted bytewise, and then either
//! a CRC32 (little endian) or a P256 ECDSA signature over the body, golden
//! string and magic string. Scanning a bank finds and checks such an image.

use vstd::prelude::*;
use crate::error::Error;
use crate::flash::ReadWrite;
use sha2::Digest;
use p256::ecdsa::signature::hazmat::PrehashVerifier;

verus! {

/// This string precedes the CRC or signature for golden images only.
pub const GOLDEN_STRING: &'static str = "XPIcbOUrpG";

/// This string, inverted bytewise, must follow every image body. (Inverted,
/// so that code holding this constant can itself be shipped as an image.)
pub const MAGIC_STRING: &'static str = "HSc7c2ptydZH2QkqZWPcJgG3JtnJ6VuA";

/// Length of the magic string.
pub const MAGIC_LEN: usize = 32;
/// Length of the golden string.
pub const GOLDEN_LEN: usize = 10;
/// Length of a CRC32 trailer.
pub const CRC_LEN: usize = 4;
/// Length of a P256 ECDSA signature trailer.
pub const SIGNATURE_LEN: usize = 64;

/// Bytes of the golden string.
pub open spec fn golden_bytes() -> Seq<u8> {
    seq![0x58u8, 0x50, 0x49, 0x63, 0x62, 0x4f, 0x55, 0x72, 0x70, 0x47]
}

/// Bytes of the magic string.
pub open spec fn magic_bytes() -> Seq<u8> {
    seq![
        0x48u8, 0x53, 0x63, 0x37, 0x63, 0x32, 0x70, 0x74, 0x79, 0x64, 0x5a, 0x48, 0x32, 0x51,
        0x6b, 0x71, 0x5a, 0x57, 0x50, 0x63, 0x4a, 0x67, 0x47, 0x33, 0x4a, 0x74, 0x6e, 0x4a,
        0x36, 0x56, 0x75, 0x41,
    ]
}

/// The magic string, every byte inverted: the marker that ends an image body.
pub open spec fn magic_inverted() -> Seq<u8> {
    Seq::new(MAGIC_LEN as nat, |i: int| !magic_bytes()[i])
}

/// `bits` rounds of the reflected CRC-32 shift register (polynomial
/// `0x04C11DB7`, reflected `0xEDB88320`), starting from `crc`.
pub open spec fn crc32_rounds(crc: u32, bits: nat) -> u32
    decreases bits,
{
    if bits == 0 {
        crc
    } else {
        let c = crc32_rounds(crc, (bits - 1) as nat);
        if c & 1 == 1 { (c >> 1u32) ^ 0xEDB8_8320u32 } else { c >> 1u32 }
    }
}

/// The CRC-32 register after `data` went through it, byte by byte, least
/// significant bit first, starting from `crc`.
pub open spec fn crc32_register(crc: u32, data: Seq<u8>) -> u32
    decreases data.len(),
{
    if data.len() == 0 {
        crc
    } else {
        crc32_rounds(crc32_register(crc, data.drop_last()) ^ (data.last() as u32), 8)
    }
}

/// The CRC-32/ISO-HDLC (IEEE) checksum of some bytes: the reflected CRC-32
/// with register and output both XORed with `0xFFFFFFFF`.
#[verifier::opaque]
pub open spec fn crc32_ieee(data: Seq<u8>) -> u32 {
    crc32_register(0xFFFF_FFFFu32, data) ^ 0xFFFF_FFFFu32
}

/// Name for the SHA-256 digest of some bytes, as the `sha2` crate computes it.
pub uninterp spec fn sha256_of(data: Seq<u8>) -> Seq<u8>;

/// Name for whether a P256 ECDSA signature (64 bytes, `r` then `s`) over a
/// prehashed message checks out against a SEC1 encoded public key, as the
/// `p256` crate decides it. Malformed keys and signatures never check out.
pub uninterp spec fn p256_prehash_verifies(key: Seq<u8>, prehash: Seq<u8>, signature: Seq<u8>) -> bool;

/// The IEEE CRC32 of `data`, computed by `crc::Crc::<u32>::checksum` with
/// the `CRC_32_ISO_HDLC` algorithm (width 32, polynomial `0x04C11DB7`,
/// initial value and final XOR `0xFFFFFFFF`, input and output reflected).
/// The contract states that result as [`crc32_ieee`].
#[verifier::external_body]
fn crc32(data: &[u8]) -> (r: u32)
    ensures
        r == crc32_ieee(data@),
{
    crc::Crc::<u32>::new(&crc::CRC_32_ISO_HDLC).checksum(data)
}

/// The SHA-256 digest of `data`, computed by `sha2::Sha256::digest`. The
/// contract names the result and states that a digest is 32 bytes long.
#[verifier::external_body]
fn sha256(data: &[u8]) -> (r: Vec<u8>)
    ensures
        r@ == sha256_of(data@),
        r@.len() == 32,
{
    sha2::Sha256::digest(data).to_vec()
}

/// Whether `signature` checks out for `prehash` under `key`: the key is
/// parsed with `p256::ecdsa::VerifyingKey::from_sec1_bytes`, the signature
/// with `p256::ecdsa::Signature::from_slice`, and the check is
/// `PrehashVerifier::verify_prehash`; a parse failure gives `false`. The
/// contract only names the result.
#[verifier::external_body]
fn verify_p256_prehash(key: &[u8], prehash: &[u8], signature: &[u8]) -> (r: bool)
    ensures
        r == p256_prehash_verifies(key@, prehash@, signature@),
{
    match (p256::ecdsa::VerifyingKey::from_sec1_bytes(key), p256::ecdsa::Signature::from_slice(signature)) {
        (Ok(k), Ok(s)) => k.verify_prehash(prehash, &s).is_ok(),
        _ => false,
    }
}

/// How the integrity (and possibly authenticity) of an image is checked.
#[derive(Clone, Debug, PartialEq, Eq)]
pub enum ImageCheck {
    /// A CRC32 over the image follows the magic string.
    Crc,
    /// A P256 ECDSA signature over the SHA-256 digest of the image follows
    /// the magic string; the public key is given in SEC1 encoding.
    P256Ecdsa(Vec<u8>),
}

/// What identifies an image for the purposes of updating: its CRC or its
/// signature.
#[derive(Copy, Clone, Debug, PartialEq, Eq)]
pub enum Identifier {
    Crc(u32),
    Signature([u8; 64]),
}

/// Image bank descriptor: a range of flash memory that may hold a single
/// firmware image, for booting, backup, update or recovery.
#[derive(Clone, Copy, Debug, PartialEq, Eq)]
pub struct Bank {
    /// Numeric identifier, unique across all flash chips.
    pub index: u8,
    /// Size in bytes of the flash range occupied by the bank.
    pub size: usize,
    /// Address where the bank starts.
    pub location: usize,
    /// Whether an image in this bank may be booted.
    pub bootable: bool,
    /// Whether this bank may supply golden images during recovery.
    pub is_golden: bool,
}

/// Image descriptor, only built by scanning flash and finding a correctly
/// decorated and checked image.
#[derive(Copy, Clone, Debug, PartialEq, Eq)]
pub struct Image {
    size: usize,
    location: usize,
    bootable: bool,
    golden: bool,
    identifier: Identifier,
}

impl Image {
    pub closed spec fn spec_size(self) -> usize {
        self.size
    }

    pub closed spec fn spec_location(self) -> usize {
        self.location
    }

    pub closed spec fn spec_bootable(self) -> bool {
        self.bootable
    }

    pub closed spec fn spec_golden(self) -> bool {
        self.golden
    }

    pub closed spec fn spec_identifier(self) -> Identifier {
        self.identifier
    }

    /// Size of the whole image in flash: body, golden string if golden,
    /// magic string and trailer.
    pub open spec fn spec_total_size(self) -> int {
        self.spec_size() + MAGIC_LEN + (if self.spec_golden() { GOLDEN_LEN as int } else { 0 })
            + match self.spec_identifier() {
            Identifier::Crc(_) => CRC_LEN as int,
            Identifier::Signature(_) => SIGNATURE_LEN as int,
        }
    }

    /// Address where the image starts (the start of its bank).
    pub fn location(&self) -> (r: usize)
        ensures
            r == self.spec_location(),
    {
        self.location
    }

    /// Size of the image body, excluding the golden string, magic string
    /// and trailer.
    pub fn size(&self) -> (r: usize)
        ensures
            r == self.spec_size(),
    {
        self.size
    }

    /// Whether the image came from a bootable bank.
    pub fn is_bootable(&self) -> (r: bool)
        ensures
            r == self.spec_bootable(),
    {
        self.bootable
    }

    /// Whether the image is golden (carries the golden string): a blessed
    /// image usable as a last resort fallback.
    pub fn is_golden(&self) -> (r: bool)
        ensures
            r == self.spec_golden(),
    {
        self.golden
    }

    /// CRC or signature of the image, which identifies it for updates.
    pub fn identifier(&self) -> (r: Identifier)
        ensures
            r == self.spec_identifier(),
    {
        self.identifier
    }

    /// Size of the whole image in flash, including decoration and trailer.
    pub fn total_size(&self) -> (r: usize)
        requires
            self.spec_total_size() <= usize::MAX,
        ensures
            r == self.spec_total_size(),
    {
        let trailer = match self.identifier {
            Identifier::Crc(_) => CRC_LEN,
            Identifier::Signature(_) => SIGNATURE_LEN,
        };
        self.size + MAGIC_LEN + if self.golden { GOLDEN_LEN } else { 0 } + trailer
    }

    /// Whether two images carry the same identifier.
    pub fn same_identifier(&self, other: &Image) -> (r: bool)
        ensures
            r == (self.spec_identifier() == other.spec_identifier()),
    {
        match (self.identifier, other.identifier) {
            (Identifier::Crc(a), Identifier::Crc(b)) => a == b,
            (Identifier::Signature(a), Identifier::Signature(b)) => {
                let mut i: usize = 0;
                while i < 64
                    invariant
                        i <= 64,
                        self.identifier == Identifier::Signature(a),
                        other.identifier == Identifier::Signature(b),
                        forall|k: int| 0 <= k < i ==> a@[k] == b@[k],
                    decreases 64 - i,
                {
                    if a[i] != b[i] {
                        assert(a@[i as int] != b@[i as int]);
                        return false;
                    }
                    i = i + 1;
                }
                assert(a@ =~= b@);
                proof {
                    broadcast use vstd::array::axiom_array_ext_equal;
                    assert(a =~= b);
                }
                true
            },
            _ => false,
        }
    }
}

/// The golden string's bytes.
pub fn golden_string() -> (r: Vec<u8>)
    ensures
        r@ == golden_bytes(),
{
    let r = vec![0x58u8, 0x50, 0x49, 0x63, 0x62, 0x4f, 0x55, 0x72, 0x70, 0x47];
    assert(r@ =~= golden_bytes());
    r
}

/// The magic string with every byte inverted.
pub fn magic_string_inverted() -> (r: [u8; 32])
    ensures
        r@ == magic_inverted(),
        forall|i: int| 0 <= i < MAGIC_LEN ==> #[trigger] r@[i] == !magic_bytes()[i],
{
    let magic: [u8; 32] = [
        0x48u8, 0x53, 0x63, 0x37, 0x63, 0x32, 0x70, 0x74, 0x79, 0x64, 0x5a, 0x48, 0x32, 0x51,
        0x6b, 0x71, 0x5a, 0x57, 0x50, 0x63, 0x4a, 0x67, 0x47, 0x33, 0x4a, 0x74, 0x6e, 0x4a,
        0x36, 0x56, 0x75, 0x41,
    ];
    assert(magic@ =~= magic_bytes());
    let mut inverted = [0u8; 32];
    let mut i: usize = 0;
    while i < 32
        invariant
            i <= 32,
            magic@ == magic_bytes(),
            forall|k: int| 0 <= k < i ==> #[trigger] inverted@[k] == !magic_bytes()[k],
        decreases 32 - i,
    {
        inverted[i] = !magic[i];
        i = i + 1;
    }
    assert(inverted@ =~= magic_inverted());
    inverted
}

/// Whether the inverted magic string sits at offset `i` of `bytes`.
pub open spec fn magic_at(bytes: Seq<u8>, i: int) -> bool {
    0 <= i && i + MAGIC_LEN <= bytes.len() && bytes.subrange(i, i + MAGIC_LEN as int)
        == magic_inverted()
}

/// Offset of the first inverted magic string at or after `k` in `bytes`,
/// or the length of `bytes` when there is none.
pub open spec fn first_magic_from(bytes: Seq<u8>, k: int) -> int
    decreases bytes.len() - k,
{
    if k < 0 || k + MAGIC_LEN > bytes.len() {
        bytes.len() as int
    } else if magic_at(bytes, k) {
        k
    } else {
        first_magic_from(bytes, k + 1)
    }
}

pub(crate) proof fn lemma_first_magic_bounds(bytes: Seq<u8>, k: int)
    requires
        0 <= k,
    ensures
        first_magic_from(bytes, k) == bytes.len() || (k <= first_magic_from(bytes, k) && magic_at(
            bytes,
            first_magic_from(bytes, k),
        )),
        first_magic_from(bytes, k) <= bytes.len() || k > bytes.len(),
    decreases bytes.len() - k,
{
    if k + MAGIC_LEN <= bytes.len() && !magic_at(bytes, k) {
        lemma_first_magic_bounds(bytes, k + 1);
    }
}

/// A scan never finds a body longer than the bank.
pub proof fn lemma_scan_size_bound<F: ReadWrite>(f: F, bank: Bank)
    requires
        f.readable(bank.location as int, bank.size as int),
    ensures
        scanned_size(f, bank) <= bank.size,
{
    f.lemma_ranges_in_bounds(bank.location as int, bank.size as int);
    lemma_first_magic_bounds(f.contents().subrange(bank.location as int, bank.location + bank.size), 0);
}

/// Length of the image body in `bytes` (a whole bank): the offset of the
/// first inverted magic string, or the bank's size when there is none.
pub fn find_magic(bytes: &[u8]) -> (r: usize)
    ensures
        r == first_magic_from(bytes@, 0),
        r <= bytes@.len(),
{
    let magic = magic_string_inverted();
    let n = bytes.len();
    let mut k: usize = 0;
    while k < n && n - k >= MAGIC_LEN
        invariant
            k <= n,
            n == bytes@.len(),
            magic@ == magic_inverted(),
            first_magic_from(bytes@, 0) == first_magic_from(bytes@, k as int),
        decreases n - k,
    {
        let mut j: usize = 0;
        let mut matched = true;
        while j < MAGIC_LEN
            invariant
                j <= MAGIC_LEN,
                k + MAGIC_LEN <= n,
                n == bytes@.len(),
                magic@ == magic_inverted(),
                matched == forall|m: int| 0 <= m < j ==> bytes@[k + m] == magic@[m],
            decreases MAGIC_LEN - j,
        {
            if bytes[k + j] != magic[j] {
                matched = false;
            }
            j = j + 1;
        }
        if matched {
            proof {
                assert(bytes@.subrange(k as int, k + MAGIC_LEN as int) =~= magic_inverted());
            }
            return k;
        }
        proof {
            if magic_at(bytes@, k as int) {
                assert(bytes@.subrange(k as int, k + MAGIC_LEN as int) == magic_inverted());
                assert(forall|m: int| 0 <= m < MAGIC_LEN ==> bytes@[k + m] == #[trigger] bytes@.subrange(k as int, k + MAGIC_LEN as int)[m]);
            }
        }
        k = k + 1;
    }
    n
}

/// The little endian number held in four bytes.
pub open spec fn le_u32(b: Seq<u8>) -> u32 {
    (b[0] as int + b[1] as int * 0x100 + b[2] as int * 0x10000 + b[3] as int * 0x1000000) as u32
}

/// Reads four bytes as a little endian number.
pub fn u32_from_le_bytes(b: &[u8]) -> (r: u32)
    requires
        b@.len() == 4,
    ensures
        r == le_u32(b@),
{
    b[0] as u32 + b[1] as u32 * 0x100 + b[2] as u32 * 0x10000 + b[3] as u32 * 0x1000000
}

/// Length of the trailer the check reads after the magic string.
pub open spec fn trailer_len(check: ImageCheck) -> int {
    match check {
        ImageCheck::Crc => CRC_LEN as int,
        ImageCheck::P256Ecdsa(_) => SIGNATURE_LEN as int,
    }
}

/// Length of the image body found when scanning the bank.
pub open spec fn scanned_size<F: ReadWrite>(f: F, bank: Bank) -> int {
    first_magic_from(f.contents().subrange(bank.location as int, bank.location + bank.size), 0)
}

/// The bytes the CRC or signature covers: the body (with golden string, if
/// any) followed by the inverted magic string.
pub open spec fn checked_message<F: ReadWrite>(f: F, bank: Bank) -> Seq<u8> {
    f.contents().subrange(bank.location as int, bank.location + scanned_size(f, bank))
        + magic_inverted()
}

/// Address of the trailer (CRC or signature).
pub open spec fn trailer_at<F: ReadWrite>(f: F, bank: Bank) -> int {
    bank.location + scanned_size(f, bank) + MAGIC_LEN
}

/// The trailer's bytes.
pub open spec fn trailer_bytes<F: ReadWrite>(f: F, bank: Bank, check: ImageCheck) -> Seq<u8> {
    f.contents().subrange(trailer_at(f, bank), trailer_at(f, bank) + trailer_len(check))
}

/// The trailer matches the image: the CRC equals the computed one, or the
/// signature checks out against the key for the SHA-256 digest.
pub open spec fn trailer_checks_out<F: ReadWrite>(f: F, bank: Bank, check: ImageCheck) -> bool {
    match check {
        ImageCheck::Crc => le_u32(trailer_bytes(f, bank, check)) == crc32_ieee(
            checked_message(f, bank),
        ),
        ImageCheck::P256Ecdsa(key) => p256_prehash_verifies(
            key@,
            sha256_of(checked_message(f, bank)),
            trailer_bytes(f, bank, check),
        ),
    }
}

/// Address where a golden string would sit: right before the magic string.
pub open spec fn golden_at<F: ReadWrite>(f: F, bank: Bank) -> int {
    bank.location + if scanned_size(f, bank) >= GOLDEN_LEN { scanned_size(f, bank)
        - GOLDEN_LEN } else { 0 }
}

/// The body ends with the golden string.
pub open spec fn golden_in<F: ReadWrite>(f: F, bank: Bank) -> bool {
    f.contents().subrange(golden_at(f, bank), golden_at(f, bank) + GOLDEN_LEN) == golden_bytes()
}

/// A signed image's bank starts with an erased byte (`0xFF`), which a scan
/// takes as an empty bank before reading any further.
pub open spec fn starts_erased<F: ReadWrite>(f: F, bank: Bank, check: ImageCheck) -> bool {
    &&& check is P256Ecdsa
    &&& f.readable(bank.location as int, 1)
    &&& f.contents()[bank.location as int] == 0xFFu8
}

/// Every read a scan of the bank makes succeeds.
pub open spec fn image_reads_ok<F: ReadWrite>(f: F, bank: Bank, check: ImageCheck) -> bool {
    &&& check is P256Ecdsa ==> f.readable(bank.location as int, 1)
    &&& f.readable(bank.location as int, bank.size as int)
    &&& scanned_size(f, bank) == bank.size || {
        &&& f.readable(trailer_at(f, bank), trailer_len(check))
        &&& trailer_checks_out(f, bank, check) ==> f.readable(golden_at(f, bank), GOLDEN_LEN as int)
    }
}

/// The image found in a bank whose scan succeeds.
pub open spec fn describes<F: ReadWrite>(img: Image, f: F, bank: Bank, check: ImageCheck) -> bool {
    let size = scanned_size(f, bank);
    &&& img.spec_location() == bank.location
    &&& img.spec_bootable() == bank.bootable
    &&& img.spec_golden() == golden_in(f, bank)
    &&& img.spec_size() == if golden_in(f, bank) { if size >= GOLDEN_LEN { size - GOLDEN_LEN } else { 0 } } else { size }
    &&& match check {
        ImageCheck::Crc => img.spec_identifier() == Identifier::Crc(crc32_ieee(checked_message(f, bank))),
        ImageCheck::P256Ecdsa(_) => img.spec_identifier() matches Identifier::Signature(sig) && sig@
            == trailer_bytes(f, bank, check),
    }
}

/// The body, golden string and magic string of an image span as much as the
/// scan found before the magic string, plus the magic string.
pub open spec fn image_fits(bank: Bank) -> bool {
    bank.location + bank.size + SIGNATURE_LEN + MAGIC_LEN <= usize::MAX
}

/// `bytes[0..size]` followed by the inverted magic string.
fn body_with_magic(bytes: &[u8], size: usize) -> (r: Vec<u8>)
    requires
        size <= bytes@.len(),
    ensures
        r@ == bytes@.subrange(0, size as int) + magic_inverted(),
{
    let magic = magic_string_inverted();
    let mut out: Vec<u8> = Vec::new();
    let mut i: usize = 0;
    while i < size
        invariant
            i <= size <= bytes@.len(),
            out@ == bytes@.subrange(0, i as int),
        decreases size - i,
    {
        out.push(bytes[i]);
        i = i + 1;
        assert(out@ =~= bytes@.subrange(0, i as int));
    }
    let mut j: usize = 0;
    while j < MAGIC_LEN
        invariant
            j <= MAGIC_LEN,
            magic@ == magic_inverted(),
            out@ == bytes@.subrange(0, size as int) + magic_inverted().subrange(0, j as int),
        decreases MAGIC_LEN - j,
    {
        out.push(magic[j]);
        j = j + 1;
        assert(out@ =~= bytes@.subrange(0, size as int) + magic_inverted().subrange(0, j as int));
    }
    assert(magic_inverted().subrange(0, MAGIC_LEN as int) =~= magic_inverted());
    out
}

/// Whether two byte strings are equal.
pub fn bytes_equal(a: &[u8], b: &[u8]) -> (r: bool)
    ensures
        r == (a@ == b@),
{
    if a.len() != b.len() {
        return false;
    }
    let mut i: usize = 0;
    while i < a.len()
        invariant
            i <= a@.len(),
            a@.len() == b@.len(),
            forall|k: int| 0 <= k < i ==> a@[k] == b@[k],
        decreases a@.len() - i,
    {
        if a[i] != b[i] {
            return false;
        }
        i = i + 1;
    }
    assert(a@ =~= b@);
    true
}

/// A 64 byte signature as an array.
fn signature_array(v: &[u8]) -> (r: [u8; 64])
    requires
        v@.len() == 64,
    ensures
        r@ == v@,
{
    let mut out = [0u8; 64];
    let mut i: usize = 0;
    while i < 64
        invariant
            i <= 64,
            v@.len() == 64,
            forall|k: int| 0 <= k < i ==> #[trigger] out@[k] == v@[k],
        decreases 64 - i,
    {
        out[i] = v[i];
        i = i + 1;
    }
    assert(out@ =~= v@);
    out
}

/// Scans a bank for a valid image and returns its descriptor. The body is
/// everything before the first inverted magic string within the bank; the
/// CRC or signature right after the magic string must match; a body ending
/// in the golden string makes the image golden (the golden string is then
/// not counted in its size). For signed images, a bank whose first byte
/// reads `0xFF` is taken as empty straight away, and one whose first byte
/// cannot be read as invalid.
pub fn image_at<F: ReadWrite>(flash: &mut F, bank: Bank, check: &ImageCheck) -> (r: Result<
    Image,
    Error,
>)
    requires
        image_fits(bank),
    ensures
        final(flash).contents() == old(flash).contents(),
        final(flash).spill() == old(flash).spill(),
        forall|a: int, l: int| #[trigger] final(flash).readable(a, l) == old(flash).readable(a, l),
        forall|a: int, l: int| #[trigger] final(flash).writable(a, l) == old(flash).writable(a, l),
        !image_reads_ok(*old(flash), bank, *check) ==> r is Err,
        *check is P256Ecdsa && !old(flash).readable(bank.location as int, 1) ==> r == Err::<Image, Error>(Error::BankInvalid),
        starts_erased(*old(flash), bank, *check) ==> r == Err::<Image, Error>(Error::BankEmpty),
        image_reads_ok(*old(flash), bank, *check) && !starts_erased(*old(flash), bank, *check)
            && scanned_size(*old(flash), bank) == bank.size
            ==> r == Err::<Image, Error>(Error::BankEmpty),
        image_reads_ok(*old(flash), bank, *check) && !starts_erased(*old(flash), bank, *check)
            && scanned_size(*old(flash), bank) < bank.size
            && !trailer_checks_out(*old(flash), bank, *check) ==> r == Err::<Image, Error>(
            match *check {
                ImageCheck::Crc => Error::CrcInvalid,
                ImageCheck::P256Ecdsa(_) => Error::SignatureInvalid,
            },
        ),
        image_reads_ok(*old(flash), bank, *check) && !starts_erased(*old(flash), bank, *check)
            && scanned_size(*old(flash), bank) < bank.size
            && trailer_checks_out(*old(flash), bank, *check) ==> (r matches Ok(img) && describes(
            img,
            *old(flash),
            bank,
            *check,
        )),
{
    let ghost f0 = *flash;
    if let ImageCheck::P256Ecdsa(_) = check {
        let first = match flash.read(bank.location, 1) {
            Ok(first) => first,
            Err(_) => return Err(Error::BankInvalid),
        };
        proof {
            flash.lemma_ranges_in_bounds(bank.location as int, 1);
            assert(first@[0] == f0.contents()[bank.location as int]);
        }
        if first[0] == 0xFF {
            return Err(Error::BankEmpty);
        }
    }
    let bank_bytes = flash.read(bank.location, bank.size)?;
    proof {
        flash.lemma_ranges_in_bounds(bank.location as int, bank.size as int);
    }
    let size = find_magic(bank_bytes.as_slice());
    if size == bank.size {
        return Err(Error::BankEmpty);
    }
    proof {
        lemma_first_magic_bounds(bank_bytes@, 0);
        assert(bank_bytes@.subrange(0, size as int) =~= f0.contents().subrange(
            bank.location as int,
            bank.location + size,
        ));
    }
    let message = body_with_magic(bank_bytes.as_slice(), size);
    let trailer_position = bank.location + size + MAGIC_LEN;
    let identifier = match check {
        ImageCheck::Crc => {
            let trailer = flash.read(trailer_position, CRC_LEN)?;
            proof {
                flash.lemma_ranges_in_bounds(trailer_position as int, CRC_LEN as int);
            }
            let retrieved = u32_from_le_bytes(trailer.as_slice());
            let calculated = crc32(message.as_slice());
            if retrieved != calculated {
                return Err(Error::CrcInvalid);
            }
            Identifier::Crc(calculated)
        },
        ImageCheck::P256Ecdsa(key) => {
            let trailer = flash.read(trailer_position, SIGNATURE_LEN)?;
            proof {
                flash.lemma_ranges_in_bounds(trailer_position as int, SIGNATURE_LEN as int);
            }
            let digest = sha256(message.as_slice());
            if !verify_p256_prehash(key.as_slice(), digest.as_slice(), trailer.as_slice()) {
                return Err(Error::SignatureInvalid);
            }
            Identifier::Signature(signature_array(trailer.as_slice()))
        },
    };
    let golden_position = bank.location + if size >= GOLDEN_LEN { size - GOLDEN_LEN } else { 0 };
    let golden_read = flash.read(golden_position, GOLDEN_LEN)?;
    proof {
        flash.lemma_ranges_in_bounds(golden_position as int, GOLDEN_LEN as int);
    }
    let expected = golden_string();
    let golden = bytes_equal(golden_read.as_slice(), expected.as_slice());
    let image_size = if golden { if size >= GOLDEN_LEN { size - GOLDEN_LEN } else { 0 } } else { size };
    Ok(Image {
        size: image_size,
        location: bank.location,
        bootable: bank.bootable,
        golden,
        identifier,
    })
}

} // verus!
