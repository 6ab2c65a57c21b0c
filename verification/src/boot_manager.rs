//! The boot manager of the demo application: it stores images into banks,
//! formats external flash, and takes in the boot metrics that the
//! bootloader left for the booted image. Its console lives with the caller.

use vstd::prelude::*;
use crate::boot_metrics::BootMetrics;
use crate::bootloader::{
    first_index, is_boot_bank, lemma_first_index_found, same_flash, same_optional_flash,
    scan_bank, scan_finds_image, written,
};
use crate::error::Error;
use crate::flash::{BulkErase, ReadWrite};
use crate::image::{describes, golden_in, image_fits, scanned_size, Bank, ImageCheck, GOLDEN_LEN, MAGIC_LEN, SIGNATURE_LEN};

verus! {

/// Flash chips and banks the boot manager works on.
pub struct BootManager<M: ReadWrite, E: ReadWrite> {
    pub external_banks: Vec<Bank>,
    pub mcu_banks: Vec<Bank>,
    pub mcu_flash: M,
    pub external_flash: Option<E>,
    pub boot_metrics: Option<BootMetrics>,
    pub greeting: Option<&'static str>,
}

/// What writing `image` at `bank` gives: on success the bank reads back as
/// the image; on failure nothing changes.
pub open spec fn stored<F: ReadWrite>(r: Result<(), Error>, a: F, b: F, bank: Bank, image: Seq<u8>) -> bool {
    &&& b.spill() == a.spill()
    &&& forall|x: int, l: int| #[trigger] b.readable(x, l) == a.readable(x, l)
    &&& forall|x: int, l: int| #[trigger] b.writable(x, l) == a.writable(x, l)
    &&& (r is Ok <==> a.writable(bank.location as int, image.len() as int))
    &&& r is Ok ==> written(a.contents(), b.contents(), bank.location as int, image, a.spill())
    &&& r is Err ==> b.contents() == a.contents()
}

/// What corrupting an image did.
#[derive(Copy, Clone, Debug, PartialEq, Eq)]
pub enum Corruption {
    /// This byte was flipped (every bit inverted) into that one.
    Flipped { from: u8, to: u8 },
    /// No bank of the given index was found where it was looked for.
    NoSuchBank,
    /// The bank was not looked for: with an external flash, only external
    /// banks are.
    Untouched,
}

/// Where an image for a bank index goes.
#[derive(Copy, Clone, Debug, PartialEq, Eq)]
pub enum FlashTarget {
    /// The external bank of that index.
    External(Bank),
    /// The MCU bank of that index (there is no external bank of it).
    Mcu(Bank),
    /// No bank has that index.
    NoSuchBank,
}

/// Banks of the given index.
pub open spec fn index_is(index: u8) -> spec_fn(Bank) -> bool {
    |b: Bank| b.index == index
}

/// Size of the image found in a bank, without its golden string.
pub open spec fn found_size<F: ReadWrite>(f: F, bank: Bank) -> int {
    let s = scanned_size(f, bank);
    if golden_in(f, bank) { if s >= GOLDEN_LEN { s - GOLDEN_LEN } else { 0 } } else { s }
}

/// What flipping the first of the `len` bytes at `at` gives: the bytes are
/// read and written back with the first one inverted; on failure nothing
/// changes.
pub open spec fn flip_outcome<F: ReadWrite>(r: Result<Corruption, Error>, a: F, b: F, at: int, len: int) -> bool {
    &&& b.spill() == a.spill()
    &&& forall|x: int, l: int| #[trigger] b.readable(x, l) == a.readable(x, l)
    &&& forall|x: int, l: int| #[trigger] b.writable(x, l) == a.writable(x, l)
    &&& (r is Ok <==> a.readable(at, len) && a.writable(at, len))
    &&& r is Ok ==> r == Ok::<Corruption, Error>(Corruption::Flipped { from: a.contents()[at], to: !a.contents()[at] })
    &&& r is Ok ==> written(a.contents(), b.contents(), at, a.contents().subrange(at, at + len).update(0, !a.contents()[at]), a.spill())
    &&& r is Err ==> b.contents() == a.contents()
}

/// What corrupting the image in `bank` at `offset` bytes past its body
/// (and, for a signature, `len` bytes long) gives: a bank without a valid
/// image is reported empty, and nothing changes; otherwise the first byte
/// there is flipped.
pub open spec fn corrupt_outcome<F: ReadWrite>(r: Result<Corruption, Error>, a: F, b: F, bank: Bank, check: ImageCheck, at: int, len: int) -> bool {
    &&& !scan_finds_image(a, bank, check) ==> r == Err::<Corruption, Error>(Error::BankEmpty) && same_flash(b, a)
    &&& scan_finds_image(a, bank, check) ==> flip_outcome(r, a, b, at, len)
}

/// Flips the first of the `len` bytes at `at`.
fn flip_first_byte<F: ReadWrite>(flash: &mut F, at: usize, len: usize) -> (r: Result<Corruption, Error>)
    requires
        len >= 1,
    ensures
        flip_outcome(r, *old(flash), *final(flash), at as int, len as int),
{
    let mut bytes = flash.read(at, len)?;
    proof {
        flash.lemma_ranges_in_bounds(at as int, len as int);
    }
    let from = bytes[0];
    let to = !from;
    bytes.set(0, to);
    flash.write(at, bytes.as_slice())?;
    Ok(Corruption::Flipped { from, to })
}

/// Scans `bank` and flips the first byte of the `len` bytes `offset` bytes
/// past the start (`past_body`: past the end of the image's body and magic
/// string instead).
fn corrupt_image<F: ReadWrite>(flash: &mut F, bank: Bank, check: &ImageCheck, past_body: bool, len: usize) -> (r: Result<Corruption, Error>)
    requires
        image_fits(bank),
        len >= 1,
        past_body ==> len <= SIGNATURE_LEN,
    ensures
        corrupt_outcome(r, *old(flash), *final(flash), bank, *check,
            if past_body { bank.location + found_size(*old(flash), bank) + MAGIC_LEN } else { bank.location + 1 }, len as int),
{
    let ghost f0 = *flash;
    let image = match scan_bank(flash, bank, check) {
        Ok(image) => image,
        Err(_) => return Err(Error::BankEmpty),
    };
    proof {
        assert(describes(image, f0, bank, *check));
        if f0.readable(bank.location as int, bank.size as int) {
            crate::image::lemma_scan_size_bound(f0, bank);
        }
    }
    let at = if past_body { image.location() + image.size() + MAGIC_LEN } else { image.location() + 1 };
    flip_first_byte(flash, at, len)
}

/// The first bank of `banks` with the given index.
fn find_bank(banks: &Vec<Bank>, index: u8) -> (r: Option<Bank>)
    ensures
        ({
            let k = first_index(banks@, index_is(index), 0);
            &&& k == banks@.len() ==> r is None
            &&& k < banks@.len() ==> r == Some(banks@[k])
        }),
{
    proof {
        lemma_first_index_found(banks@, index_is(index), 0);
    }
    let mut i: usize = 0;
    while i < banks.len()
        invariant
            i <= banks@.len(),
            first_index(banks@, index_is(index), 0) == first_index(banks@, index_is(index), i as int),
        decreases banks@.len() - i,
    {
        if banks[i].index == index {
            return Some(banks[i]);
        }
        i = i + 1;
    }
    None
}

impl<M: ReadWrite, E: ReadWrite> BootManager<M, E> {
    /// Position of the first bootable MCU bank.
    pub open spec fn boot_index(self) -> int {
        first_index(self.mcu_banks@, is_boot_bank(), 0)
    }

    /// The bank images are booted from: the first bootable MCU bank.
    pub fn boot_bank(&self) -> (r: Bank)
        requires
            self.boot_index() < self.mcu_banks@.len(),
        ensures
            r == self.mcu_banks@[self.boot_index()],
    {
        let mut i: usize = 0;
        while i < self.mcu_banks.len()
            invariant
                i <= self.mcu_banks@.len(),
                self.boot_index() < self.mcu_banks@.len(),
                self.boot_index() == first_index(self.mcu_banks@, is_boot_bank(), i as int),
            decreases self.mcu_banks@.len() - i,
        {
            if self.mcu_banks[i].bootable {
                return self.mcu_banks[i];
            }
            i = i + 1;
        }
        self.mcu_banks[0]
    }

    /// Writes a firmware image to an external flash bank.
    pub fn store_image_external(&mut self, image: &[u8], bank: Bank) -> (r: Result<(), Error>)
        ensures
            final(self).mcu_banks@ == old(self).mcu_banks@,
            final(self).external_banks@ == old(self).external_banks@,
            final(self).boot_metrics == old(self).boot_metrics,
            same_flash(final(self).mcu_flash, old(self).mcu_flash),
            final(self).external_flash is Some <==> old(self).external_flash is Some,
            old(self).external_flash is None ==> r == Err::<(), Error>(Error::NoExternalFlash),
            old(self).external_flash is Some ==> stored(r, old(self).external_flash->0, final(self).external_flash->0, bank, image@),
    {
        match &mut self.external_flash {
            Some(ext) => ext.write(bank.location, image),
            None => Err(Error::NoExternalFlash),
        }
    }

    /// Writes a firmware image to an MCU flash bank that is not bootable.
    pub fn store_image_mcu(&mut self, image: &[u8], bank: Bank) -> (r: Result<(), Error>)
        ensures
            final(self).mcu_banks@ == old(self).mcu_banks@,
            final(self).external_banks@ == old(self).external_banks@,
            final(self).boot_metrics == old(self).boot_metrics,
            same_optional_flash(final(self).external_flash, old(self).external_flash),
            bank.bootable ==> r == Err::<(), Error>(Error::BankInvalid) && same_flash(final(self).mcu_flash, old(self).mcu_flash),
            !bank.bootable ==> stored(r, old(self).mcu_flash, final(self).mcu_flash, bank, image@),
    {
        if bank.bootable {
            Err(Error::BankInvalid)
        } else {
            self.mcu_flash.write(bank.location, image)
        }
    }

    /// Where an image for bank `index` goes: the first external bank of that
    /// index, failing that the first MCU bank of it.
    pub fn flash_target(&self, index: u8) -> (r: FlashTarget)
        ensures
            ({
                let ek = first_index(self.external_banks@, index_is(index), 0);
                let mk = first_index(self.mcu_banks@, index_is(index), 0);
                &&& ek < self.external_banks@.len() ==> r == FlashTarget::External(self.external_banks@[ek])
                &&& ek == self.external_banks@.len() && mk < self.mcu_banks@.len() ==> r == FlashTarget::Mcu(self.mcu_banks@[mk])
                &&& ek == self.external_banks@.len() && mk == self.mcu_banks@.len() ==> r == FlashTarget::NoSuchBank
            }),
    {
        match find_bank(&self.external_banks, index) {
            Some(bank) => FlashTarget::External(bank),
            None => match find_bank(&self.mcu_banks, index) {
                Some(bank) => FlashTarget::Mcu(bank),
                None => FlashTarget::NoSuchBank,
            },
        }
    }

    /// Corrupts the signature of the image in bank `index`, by flipping its
    /// first byte; the bank is looked for among the external banks when
    /// there is an external flash, among the MCU banks otherwise.
    pub fn corrupt_signature(&mut self, index: u8, check: &ImageCheck) -> (r: Result<Corruption, Error>)
        requires
            forall|i: int| 0 <= i < old(self).mcu_banks@.len() ==> image_fits(#[trigger] old(self).mcu_banks@[i]),
            forall|i: int| 0 <= i < old(self).external_banks@.len() ==> image_fits(#[trigger] old(self).external_banks@[i]),
        ensures
            final(self).mcu_banks@ == old(self).mcu_banks@,
            final(self).external_banks@ == old(self).external_banks@,
            final(self).boot_metrics == old(self).boot_metrics,
            final(self).external_flash is Some <==> old(self).external_flash is Some,
            ({
                let ek = first_index(old(self).external_banks@, index_is(index), 0);
                let mk = first_index(old(self).mcu_banks@, index_is(index), 0);
                &&& old(self).external_flash is Some ==> same_flash(final(self).mcu_flash, old(self).mcu_flash)
                &&& old(self).external_flash is Some && ek == old(self).external_banks@.len() ==> r == Ok::<Corruption, Error>(Corruption::Untouched)
                    && same_flash(final(self).external_flash->0, old(self).external_flash->0)
                &&& old(self).external_flash is Some && ek < old(self).external_banks@.len() ==> {
                    let bank = old(self).external_banks@[ek];
                    let f = old(self).external_flash->0;
                    corrupt_outcome(r, f, final(self).external_flash->0, bank, *check,
                        bank.location + found_size(f, bank) + MAGIC_LEN, SIGNATURE_LEN as int)
                }
                &&& old(self).external_flash is None ==> final(self).external_flash is None
                &&& old(self).external_flash is None && mk == old(self).mcu_banks@.len() ==> r == Ok::<Corruption, Error>(Corruption::NoSuchBank)
                    && same_flash(final(self).mcu_flash, old(self).mcu_flash)
                &&& old(self).external_flash is None && mk < old(self).mcu_banks@.len() ==> {
                    let bank = old(self).mcu_banks@[mk];
                    let f = old(self).mcu_flash;
                    corrupt_outcome(r, f, final(self).mcu_flash, bank, *check,
                        bank.location + found_size(f, bank) + MAGIC_LEN, SIGNATURE_LEN as int)
                }
            }),
    {
        proof {
            lemma_first_index_found(self.external_banks@, index_is(index), 0);
            lemma_first_index_found(self.mcu_banks@, index_is(index), 0);
        }
        match &mut self.external_flash {
            Some(ext) => {
                match find_bank(&self.external_banks, index) {
                    Some(bank) => corrupt_image(ext, bank, check, true, SIGNATURE_LEN),
                    None => Ok(Corruption::Untouched),
                }
            },
            None => {
                match find_bank(&self.mcu_banks, index) {
                    Some(bank) => corrupt_image(&mut self.mcu_flash, bank, check, true, SIGNATURE_LEN),
                    None => Ok(Corruption::NoSuchBank),
                }
            },
        }
    }

    /// Corrupts the body of the image in external bank `index`, by flipping
    /// its second byte.
    pub fn corrupt_body(&mut self, index: u8, check: &ImageCheck) -> (r: Result<Corruption, Error>)
        requires
            forall|i: int| 0 <= i < old(self).external_banks@.len() ==> image_fits(#[trigger] old(self).external_banks@[i]),
        ensures
            final(self).mcu_banks@ == old(self).mcu_banks@,
            final(self).external_banks@ == old(self).external_banks@,
            final(self).boot_metrics == old(self).boot_metrics,
            same_flash(final(self).mcu_flash, old(self).mcu_flash),
            final(self).external_flash is Some <==> old(self).external_flash is Some,
            old(self).external_flash is None ==> r == Err::<Corruption, Error>(Error::NoExternalFlash),
            ({
                let ek = first_index(old(self).external_banks@, index_is(index), 0);
                &&& old(self).external_flash is Some && ek == old(self).external_banks@.len() ==> r == Ok::<Corruption, Error>(Corruption::NoSuchBank)
                    && same_flash(final(self).external_flash->0, old(self).external_flash->0)
                &&& old(self).external_flash is Some && ek < old(self).external_banks@.len() ==> {
                    let bank = old(self).external_banks@[ek];
                    corrupt_outcome(r, old(self).external_flash->0, final(self).external_flash->0, bank, *check,
                        bank.location + 1, 1)
                }
            }),
    {
        proof {
            lemma_first_index_found(self.external_banks@, index_is(index), 0);
        }
        match &mut self.external_flash {
            Some(ext) => {
                match find_bank(&self.external_banks, index) {
                    Some(bank) => corrupt_image(ext, bank, check, false, 1),
                    None => Ok(Corruption::NoSuchBank),
                }
            },
            None => Err(Error::NoExternalFlash),
        }
    }

    /// Takes in the boot metrics found in memory: they are kept only when
    /// their magic numbers show them to be valid.
    pub fn load_boot_metrics(&mut self, metrics: BootMetrics)
        ensures
            final(self).boot_metrics == (if metrics.spec_is_valid() { Some(metrics) } else { None }),
            final(self).mcu_banks@ == old(self).mcu_banks@,
            final(self).external_banks@ == old(self).external_banks@,
    {
        self.boot_metrics = if metrics.is_valid() {
            Some(metrics)
        } else {
            None
        };
    }
}

impl<M: ReadWrite, E: ReadWrite + BulkErase> BootManager<M, E> {
    /// Fully erases the external flash, so no image is left over and
    /// future writes are as fast as possible.
    pub fn format_external(&mut self) -> (r: Result<(), Error>)
        ensures
            final(self).external_flash is Some <==> old(self).external_flash is Some,
            old(self).external_flash is None ==> r == Err::<(), Error>(Error::NoExternalFlash),
            old(self).external_flash is Some ==> (r is Ok
                <==> old(self).external_flash->0.erasable()),
            r is Ok ==> forall|i: int|
                0 <= i < final(self).external_flash->0.erasable_contents().len()
                    ==> #[trigger] final(self).external_flash->0.erasable_contents()[i] == 0xFFu8,
    {
        match &mut self.external_flash {
            Some(ext) => ext.erase(),
            None => Err(Error::NoExternalFlash),
        }
    }
}

} // verus!
