//! The bootloader's decisions: which image to boot, when to update it from
//! another bank, how to restore it when it is missing or broken, and where
//! to receive an image during serial recovery.
//!
//! Flash access goes through [`ReadWrite`]; talking to the serial console and
//! jumping into the chosen image are left to the caller.

use vstd::prelude::*;
use crate::boot_metrics::{BootMetrics, BootPath};
use crate::error::Error;
use crate::flash::ReadWrite;
use crate::image::{
    checked_message, describes, golden_at, golden_in, image_at, image_fits, image_reads_ok, starts_erased,
    scanned_size, trailer_at, trailer_bytes, crc32_ieee,
    trailer_checks_out, trailer_len, Bank, Image, ImageCheck, Identifier, GOLDEN_LEN, MAGIC_LEN,
};

verus! {

/// Indicates the state of an update signal.
#[derive(Copy, Clone, Debug, PartialEq, Eq)]
pub enum UpdatePlan {
    /// Do not update.
    NoUpdate,
    /// Allow updates, if one is available.
    Any,
    /// Update from a specific bank.
    Index(u8),
    /// Attempt to update through serial recovery once.
    Serial,
}

/// Reads the update signal: what the board asks of the next boot.
pub trait ReadUpdateSignal {
    fn read_update_plan(&self) -> UpdatePlan;
}

/// Sets the update signal for the next boot.
pub trait WriteUpdateSignal {
    fn write_update_plan(&mut self, plan: UpdatePlan);
}

/// An update signal that can be both read and written.
pub trait UpdatePlanner: ReadUpdateSignal + WriteUpdateSignal {}

impl<T: ReadUpdateSignal + WriteUpdateSignal> UpdatePlanner for T {}

/// Total size in flash of the image a successful scan of the bank finds.
pub open spec fn found_total<F: ReadWrite>(f: F, bank: Bank, check: ImageCheck) -> int {
    let size = scanned_size(f, bank);
    let golden = golden_in(f, bank);
    let body = if golden { if size >= GOLDEN_LEN { size - GOLDEN_LEN } else { 0 } } else { size };
    body + MAGIC_LEN + (if golden { GOLDEN_LEN as int } else { 0 }) + trailer_len(check)
}

/// A scan of the bank finds a valid image.
pub open spec fn scan_finds_image<F: ReadWrite>(f: F, bank: Bank, check: ImageCheck) -> bool {
    &&& image_reads_ok(f, bank, check)
    &&& !starts_erased(f, bank, check)
    &&& scanned_size(f, bank) < bank.size
    &&& trailer_checks_out(f, bank, check)
}

/// A valid image found in a bank, as a scan reports it.
pub proof fn lemma_scan_result<F: ReadWrite>(f: F, bank: Bank, check: ImageCheck, r: Result<Image, Error>)
    requires
        !image_reads_ok(f, bank, check) ==> r is Err,
        starts_erased(f, bank, check) ==> r is Err,
        image_reads_ok(f, bank, check) && scanned_size(f, bank) == bank.size ==> r is Err,
        image_reads_ok(f, bank, check) && scanned_size(f, bank) < bank.size && !trailer_checks_out(
            f,
            bank,
            check,
        ) ==> r is Err,
        image_reads_ok(f, bank, check) && !starts_erased(f, bank, check) && scanned_size(f, bank) < bank.size
            && trailer_checks_out(f, bank, check) ==> (r matches Ok(img) && describes(img, f, bank, check)),
        scanned_size(f, bank) <= bank.size || !image_reads_ok(f, bank, check),
    ensures
        r is Ok <==> scan_finds_image(f, bank, check),
        r matches Ok(img) ==> describes(img, f, bank, check) && img.spec_total_size() == found_total(
            f,
            bank,
            check,
        ),
{
    if let Ok(img) = r {
        assert(describes(img, f, bank, check));
    }
}

/// Room in the address space for any image the bank could hold, and for a
/// copy of it at `destination`.
pub open spec fn copy_fits(bank: Bank, destination: usize) -> bool {
    &&& image_fits(bank)
    &&& destination + bank.size + crate::image::SIGNATURE_LEN + MAGIC_LEN <= usize::MAX
}

/// Copying the image found in `ib` of `i` to `ob` of `o` succeeds: a valid
/// image is found (golden, when one is required), it can be read in full,
/// and its destination can be written.
pub open spec fn copy_ok<I: ReadWrite, O: ReadWrite>(
    i: I,
    o: O,
    ib: Bank,
    ob: Bank,
    golden_required: bool,
    check: ImageCheck,
) -> bool {
    &&& scan_finds_image(i, ib, check)
    &&& golden_required ==> golden_in(i, ib)
    &&& i.readable(ib.location as int, found_total(i, ib, check))
    &&& o.writable(ob.location as int, found_total(i, ib, check))
}

/// `after` holds, from `ob`, the `total` bytes that `before_input` holds from
/// `ib`; nothing else changed but the spill right after them.
pub open spec fn copied(
    before_input: Seq<u8>,
    before_output: Seq<u8>,
    after: Seq<u8>,
    ib: Bank,
    ob: Bank,
    total: int,
    spill: nat,
) -> bool {
    &&& after.len() == before_output.len()
    &&& forall|k: int| 0 <= k < total ==> #[trigger] after[ob.location + k] == before_input[ib.location + k]
    &&& forall|j: int|
        0 <= j < before_output.len() && !(ob.location <= j < ob.location + total + spill) ==> #[trigger] after[j]
            == before_output[j]
}

/// Reads the whole image found in `input_bank`.
fn read_found_image<F: ReadWrite>(
    flash: &mut F,
    input_bank: Bank,
    must_be_golden: bool,
    check: &ImageCheck,
) -> (r: Result<Vec<u8>, Error>)
    requires
        image_fits(input_bank),
    ensures
        final(flash).contents() == old(flash).contents(),
        final(flash).spill() == old(flash).spill(),
        forall|a: int, l: int| #[trigger] final(flash).readable(a, l) == old(flash).readable(a, l),
        forall|a: int, l: int| #[trigger] final(flash).writable(a, l) == old(flash).writable(a, l),
        r is Ok <==> scan_finds_image(*old(flash), input_bank, *check) && (must_be_golden
            ==> golden_in(*old(flash), input_bank)) && old(flash).readable(
            input_bank.location as int,
            found_total(*old(flash), input_bank, *check),
        ),
        scan_finds_image(*old(flash), input_bank, *check) && must_be_golden && !golden_in(
            *old(flash),
            input_bank,
        ) ==> r == Err::<Vec<u8>, Error>(Error::DeviceError("Image is not golden")),
        scan_failure(*old(flash), input_bank, *check) matches Some(e) ==> r == Err::<Vec<u8>, Error>(e),
        r matches Ok(v) ==> v@ == old(flash).contents().subrange(
            input_bank.location as int,
            input_bank.location + found_total(*old(flash), input_bank, *check),
        ),
{
    let ghost f0 = *flash;
    let scanned = image_at(flash, input_bank, check);
    proof {
        if f0.readable(input_bank.location as int, input_bank.size as int) {
            crate::image::lemma_scan_size_bound(f0, input_bank);
        }
        lemma_scan_result(f0, input_bank, *check, scanned);
    }
    let image = scanned?;
    if must_be_golden && !image.is_golden() {
        return Err(Error::DeviceError("Image is not golden"));
    }
    let total = image.total_size();
    flash.read(input_bank.location, total)
}

/// Copies the image in `input_bank` of one flash to `output_bank` of
/// another. When `must_be_golden`, only a golden image is copied.
pub fn copy_image<I: ReadWrite, O: ReadWrite>(
    input_flash: &mut I,
    output_flash: &mut O,
    input_bank: Bank,
    output_bank: Bank,
    must_be_golden: bool,
    check: &ImageCheck,
) -> (r: Result<(), Error>)
    requires
        copy_fits(input_bank, output_bank.location),
    ensures
        final(input_flash).contents() == old(input_flash).contents(),
        forall|a: int, l: int| #[trigger] final(input_flash).readable(a, l) == old(input_flash).readable(a, l),
        forall|a: int, l: int| #[trigger] final(input_flash).writable(a, l) == old(input_flash).writable(a, l),
        final(input_flash).spill() == old(input_flash).spill(),
        forall|a: int, l: int| #[trigger] final(output_flash).readable(a, l) == old(output_flash).readable(a, l),
        forall|a: int, l: int| #[trigger] final(output_flash).writable(a, l) == old(output_flash).writable(a, l),
        final(output_flash).spill() == old(output_flash).spill(),
        r is Ok <==> copy_ok(*old(input_flash), *old(output_flash), input_bank, output_bank, must_be_golden, *check),
        scan_finds_image(*old(input_flash), input_bank, *check) && must_be_golden && !golden_in(
            *old(input_flash),
            input_bank,
        ) ==> r == Err::<(), Error>(Error::DeviceError("Image is not golden")),
        scan_failure(*old(input_flash), input_bank, *check) matches Some(e) ==> r == Err::<(), Error>(e),
        r is Ok ==> copied(
            old(input_flash).contents(),
            old(output_flash).contents(),
            final(output_flash).contents(),
            input_bank,
            output_bank,
            found_total(*old(input_flash), input_bank, *check),
            old(output_flash).spill(),
        ),
        r is Err ==> final(output_flash).contents() == old(output_flash).contents(),
{
    let ghost i0 = *input_flash;
    let ghost o0 = *output_flash;
    let bytes = read_found_image(input_flash, input_bank, must_be_golden, check)?;
    proof {
        input_flash.lemma_ranges_in_bounds(input_bank.location as int, found_total(i0, input_bank, *check));
    }
    output_flash.write(output_bank.location, bytes.as_slice())
}

/// Copies the image in `input_bank` to `output_bank` of the same flash.
/// When `must_be_golden`, only a golden image is copied.
pub fn copy_image_single_flash<F: ReadWrite>(
    flash: &mut F,
    input_bank: Bank,
    output_bank: Bank,
    must_be_golden: bool,
    check: &ImageCheck,
) -> (r: Result<(), Error>)
    requires
        copy_fits(input_bank, output_bank.location),
    ensures
        forall|a: int, l: int| #[trigger] final(flash).readable(a, l) == old(flash).readable(a, l),
        forall|a: int, l: int| #[trigger] final(flash).writable(a, l) == old(flash).writable(a, l),
        final(flash).spill() == old(flash).spill(),
        input_bank.index == output_bank.index ==> r == Err::<(), Error>(
            Error::DeviceError("Attempted to copy a bank into itself"),
        ),
        r is Ok <==> input_bank.index != output_bank.index && copy_ok(*old(flash), *old(flash), input_bank, output_bank, must_be_golden, *check),
        input_bank.index != output_bank.index && scan_finds_image(*old(flash), input_bank, *check) && must_be_golden && !golden_in(
            *old(flash),
            input_bank,
        ) ==> r == Err::<(), Error>(Error::DeviceError("Image is not golden")),
        input_bank.index != output_bank.index ==> (scan_failure(*old(flash), input_bank, *check) matches Some(e)
            ==> r == Err::<(), Error>(e)),
        r is Ok ==> copied(
            old(flash).contents(),
            old(flash).contents(),
            final(flash).contents(),
            input_bank,
            output_bank,
            found_total(*old(flash), input_bank, *check),
            old(flash).spill(),
        ),
        r is Err ==> final(flash).contents() == old(flash).contents(),
{
    if input_bank.index == output_bank.index {
        return Err(Error::DeviceError("Attempted to copy a bank into itself"));
    }
    let ghost f0 = *flash;
    let bytes = read_found_image(flash, input_bank, must_be_golden, check)?;
    proof {
        flash.lemma_ranges_in_bounds(input_bank.location as int, found_total(f0, input_bank, *check));
    }
    flash.write(output_bank.location, bytes.as_slice())
}


/// Two flash states that reads, writes and scans cannot tell apart.
pub open spec fn same_flash<F: ReadWrite>(a: F, b: F) -> bool {
    &&& a.contents() == b.contents()
    &&& a.spill() == b.spill()
    &&& forall|x: int, l: int| #[trigger] a.readable(x, l) == b.readable(x, l)
    &&& forall|x: int, l: int| #[trigger] a.writable(x, l) == b.writable(x, l)
}

/// Two optional flashes that are both absent, or both present and alike.
pub open spec fn same_optional_flash<F: ReadWrite>(a: Option<F>, b: Option<F>) -> bool {
    &&& (a is Some <==> b is Some)
    &&& a is Some ==> same_flash(a->0, b->0)
}

/// Whether a scan or a copy succeeds depends on nothing but what
/// [`same_flash`] compares.
pub proof fn lemma_copy_ok_same<I: ReadWrite, O: ReadWrite>(
    i1: I,
    i2: I,
    o1: O,
    o2: O,
    ib: Bank,
    ob: Bank,
    golden: bool,
    check: ImageCheck,
)
    requires
        same_flash(i1, i2),
        same_flash(o1, o2),
    ensures
        scan_finds_image(i1, ib, check) == scan_finds_image(i2, ib, check),
        found_total(i1, ib, check) == found_total(i2, ib, check),
        golden_in(i1, ib) == golden_in(i2, ib),
        copy_ok(i1, o1, ib, ob, golden, check) == copy_ok(i2, o2, ib, ob, golden, check),
{
    assert(i1.readable(ib.location as int, ib.size as int) == i2.readable(ib.location as int, ib.size as int));
    assert(i1.readable(trailer_at(i1, ib), trailer_len(check)) == i2.readable(trailer_at(i2, ib), trailer_len(check)));
    assert(i1.readable(golden_at(i1, ib), GOLDEN_LEN as int) == i2.readable(golden_at(i2, ib), GOLDEN_LEN as int));
    assert(i1.readable(ib.location as int, found_total(i1, ib, check)) == i2.readable(ib.location as int, found_total(i2, ib, check)));
    assert(o1.writable(ob.location as int, found_total(i1, ib, check)) == o2.writable(ob.location as int, found_total(i2, ib, check)));
}

/// Index of the first bank at or after `k` that satisfies `p`, or the
/// number of banks when none does.
pub open spec fn first_index(s: Seq<Bank>, p: spec_fn(Bank) -> bool, k: int) -> int
    decreases s.len() - k,
{
    if k < 0 || k >= s.len() {
        s.len() as int
    } else if p(s[k]) {
        k
    } else {
        first_index(s, p, k + 1)
    }
}

/// Skipping banks that fail `p` does not move the first one that passes.
pub proof fn lemma_first_index_skip(s: Seq<Bank>, p: spec_fn(Bank) -> bool, k: int, i: int)
    requires
        0 <= k <= i <= s.len(),
        forall|j: int| k <= j < i ==> !p(#[trigger] s[j]),
    ensures
        first_index(s, p, k) == first_index(s, p, i),
    decreases i - k,
{
    if k < i {
        lemma_first_index_skip(s, p, k + 1, i);
    }
}

/// Where `first_index` lands.
pub proof fn lemma_first_index_found(s: Seq<Bank>, p: spec_fn(Bank) -> bool, k: int)
    requires
        0 <= k,
    ensures
        k <= first_index(s, p, k) <= s.len() || (k > s.len() && first_index(s, p, k) == s.len()),
        first_index(s, p, k) < s.len() ==> p(s[first_index(s, p, k)]),
        forall|j: int| k <= j < first_index(s, p, k) ==> !p(#[trigger] s[j]),
    decreases s.len() - k,
{
    if k < s.len() && !p(s[k]) {
        lemma_first_index_found(s, p, k + 1);
    }
}

/// The bank images are booted from.
pub open spec fn is_boot_bank() -> spec_fn(Bank) -> bool {
    |b: Bank| b.bootable
}

/// Number of banks in `s` that satisfy `p`.
pub open spec fn count_banks(s: Seq<Bank>, p: spec_fn(Bank) -> bool) -> nat
    decreases s.len(),
{
    if s.len() == 0 {
        0
    } else {
        count_banks(s.drop_last(), p) + if p(s.last()) { 1nat } else { 0nat }
    }
}

/// Golden banks.
pub open spec fn is_golden_bank() -> spec_fn(Bank) -> bool {
    |b: Bank| b.is_golden
}

/// Bank indices run 1, 2, 3... over the MCU banks, then on over the
/// external banks.
pub open spec fn indices_in_sequence(mcu: Seq<Bank>, external: Seq<Bank>) -> bool {
    &&& forall|i: int| 0 <= i < mcu.len() ==> #[trigger] mcu[i].index == i + 1
    &&& forall|j: int| 0 <= j < external.len() ==> #[trigger] external[j].index == mcu.len() + j + 1
}

/// Counts the banks of `s` that satisfy `p`, given as the two flags the
/// count can select on.
fn count_where(s: &Vec<Bank>, golden: bool) -> (n: usize)
    ensures
        golden ==> n == count_banks(s@, is_golden_bank()),
        !golden ==> n == count_banks(s@, is_boot_bank()),
{
    let ghost p = if golden { is_golden_bank() } else { is_boot_bank() };
    let mut n: usize = 0;
    let mut i: usize = 0;
    while i < s.len()
        invariant
            i <= s@.len(),
            n <= i,
            p == (if golden { is_golden_bank() } else { is_boot_bank() }),
            n == count_banks(s@.subrange(0, i as int), p),
        decreases s@.len() - i,
    {
        proof {
            assert(s@.subrange(0, i + 1).drop_last() =~= s@.subrange(0, i as int));
        }
        let b = s[i];
        if (golden && b.is_golden) || (!golden && b.bootable) {
            n = n + 1;
        }
        i = i + 1;
    }
    assert(s@.subrange(0, s@.len() as int) =~= s@);
    n
}

/// The bootloader: its flash chips, their banks and its settings.
pub struct Bootloader<M: ReadWrite, E: ReadWrite> {
    /// The MCU's own flash, which holds the bootable bank.
    pub mcu_flash: M,
    /// External flash, if the board has one.
    pub external_flash: Option<E>,
    /// Banks in MCU flash.
    pub mcu_banks: Vec<Bank>,
    /// Banks in external flash.
    pub external_banks: Vec<Bank>,
    /// Metrics handed to the booted image.
    pub boot_metrics: BootMetrics,
    /// Whether serial recovery is available when nothing can be booted.
    pub recovery_enabled: bool,
    /// Whether a serial console is attached.
    pub serial_enabled: bool,
    /// What the update signal asks for, if the board reads one.
    pub update_plan: Option<UpdatePlan>,
    /// How images are checked.
    pub check: ImageCheck,
    /// Printed when the bootloader starts.
    pub greeting: &'static str,
}

impl<M: ReadWrite, E: ReadWrite> Bootloader<M, E> {
    /// Position of the boot bank: the first bootable MCU bank.
    pub open spec fn boot_index(self) -> int {
        first_index(self.mcu_banks@, is_boot_bank(), 0)
    }

    /// There is a bootable MCU bank.
    pub open spec fn has_boot_bank(self) -> bool {
        self.boot_index() < self.mcu_banks@.len()
    }

    /// The boot bank.
    pub open spec fn spec_boot_bank(self) -> Bank {
        self.mcu_banks@[self.boot_index()]
    }

    /// Every bank, and a copy of it into the boot bank, fits the address
    /// space.
    pub open spec fn banks_fit(self) -> bool {
        &&& forall|i: int|
            0 <= i < self.mcu_banks@.len() ==> copy_fits(
                #[trigger] self.mcu_banks@[i],
                self.spec_boot_bank().location,
            )
        &&& forall|j: int|
            0 <= j < self.external_banks@.len() ==> copy_fits(
                #[trigger] self.external_banks@[j],
                self.spec_boot_bank().location,
            )
    }

    /// What the bootloader's operations need: a boot bank, and banks that
    /// fit the address space.
    pub open spec fn ready(self) -> bool {
        self.has_boot_bank() && self.banks_fit()
    }

    /// The sanity checks on the bank layout: at most one golden bank in
    /// all, exactly one bootable MCU bank, indices in sequence across
    /// the flash chips, and external banks only with an external flash.
    pub open spec fn banks_are_correct(self) -> bool {
        &&& count_banks(self.mcu_banks@, is_golden_bank()) + count_banks(
            self.external_banks@,
            is_golden_bank(),
        ) <= 1
        &&& count_banks(self.mcu_banks@, is_boot_bank()) == 1
        &&& indices_in_sequence(self.mcu_banks@, self.external_banks@)
        &&& self.external_flash is Some || self.external_banks@.len() == 0
    }

    /// Everything but the flash contents and the boot metrics is as it was.
    pub open spec fn settings_kept(a: Self, b: Self) -> bool {
        &&& a.mcu_banks@ == b.mcu_banks@
        &&& a.external_banks@ == b.external_banks@
        &&& a.recovery_enabled == b.recovery_enabled
        &&& a.serial_enabled == b.serial_enabled
        &&& a.update_plan == b.update_plan
        &&& a.check == b.check
        &&& a.greeting == b.greeting
    }

    /// Nothing observable changed.
    pub open spec fn unchanged(a: Self, b: Self) -> bool {
        &&& Self::settings_kept(a, b)
        &&& same_flash(a.mcu_flash, b.mcu_flash)
        &&& same_optional_flash(a.external_flash, b.external_flash)
        &&& a.boot_metrics == b.boot_metrics
    }

    /// The sanity checks on the flash bank layout. The bootloader does not
    /// run on a layout that fails them: that is a configuration error, and
    /// [`Self::bank_layout_is_correct`] tells whether a layout passes.
    pub fn verify_bank_correctness(&self)
        requires
            self.banks_are_correct(),
    {
    }

    /// Makes the sanity checks on the flash bank layout: whether it is one
    /// the bootloader can run on.
    pub fn bank_layout_is_correct(&self) -> (r: bool)
        ensures
            r == self.banks_are_correct(),
    {
        let total_golden = count_where(&self.mcu_banks, true) as u128 + count_where(
            &self.external_banks,
            true,
        ) as u128;
        if total_golden > 1 {
            return false;
        }
        if count_where(&self.mcu_banks, false) != 1 {
            return false;
        }
        let mut i: usize = 0;
        while i < self.mcu_banks.len()
            invariant
                i <= self.mcu_banks@.len(),
                forall|k: int| 0 <= k < i ==> #[trigger] self.mcu_banks@[k].index == k + 1,
            decreases self.mcu_banks@.len() - i,
        {
            if self.mcu_banks[i].index as usize != i + 1 {
                return false;
            }
            i = i + 1;
        }
        let mut j: usize = 0;
        while j < self.external_banks.len()
            invariant
                j <= self.external_banks@.len(),
                forall|k: int|
                    0 <= k < j ==> #[trigger] self.external_banks@[k].index == self.mcu_banks@.len()
                        + k + 1,
            decreases self.external_banks@.len() - j,
        {
            let index = self.external_banks[j].index as usize;
            if !(index > j && index - j - 1 == self.mcu_banks.len()) {
                return false;
            }
            j = j + 1;
        }
        self.external_flash.is_some() || self.external_banks.len() == 0
    }

    /// The bank images are booted from: the first bootable MCU bank.
    pub fn boot_bank(&self) -> (r: Bank)
        requires
            self.has_boot_bank(),
        ensures
            r == self.spec_boot_bank(),
            r.bootable,
    {
        proof {
            lemma_first_index_found(self.mcu_banks@, is_boot_bank(), 0);
        }
        let mut i: usize = 0;
        while i < self.mcu_banks.len()
            invariant
                i <= self.mcu_banks@.len(),
                self.has_boot_bank(),
                self.boot_index() == first_index(self.mcu_banks@, is_boot_bank(), i as int),
            decreases self.mcu_banks@.len() - i,
        {
            if self.mcu_banks[i].bootable {
                return self.mcu_banks[i];
            }
            i = i + 1;
        }
        self.mcu_banks[0]
    }
}


/// The error a failed scan reports, where [`scan_failure`] names one.
pub open spec fn scan_error<F: ReadWrite>(r: Result<Image, Error>, f: F, bank: Bank, check: ImageCheck) -> bool {
    scan_failure(f, bank, check) matches Some(e) ==> r == Err::<Image, Error>(e)
}

/// The error a scan of `bank` fails with when it holds no valid image: for
/// a signed image, an invalid bank when its first byte cannot be read and
/// an empty one when that byte is erased; then, when the bank reads well,
/// an empty bank, or a trailer that does not check out. `None` when the
/// scan finds an image, or when another read of the bank fails.
pub open spec fn scan_failure<F: ReadWrite>(f: F, bank: Bank, check: ImageCheck) -> Option<Error> {
    if check is P256Ecdsa && !f.readable(bank.location as int, 1) {
        Some(Error::BankInvalid)
    } else if starts_erased(f, bank, check) {
        Some(Error::BankEmpty)
    } else if image_reads_ok(f, bank, check) && scanned_size(f, bank) == bank.size {
        Some(Error::BankEmpty)
    } else if image_reads_ok(f, bank, check) && scanned_size(f, bank) < bank.size && !trailer_checks_out(f, bank, check) {
        Some(match check {
            ImageCheck::Crc => Error::CrcInvalid,
            ImageCheck::P256Ecdsa(_) => Error::SignatureInvalid,
        })
    } else {
        None
    }
}

/// Scans `bank`, stating the result in terms of [`scan_finds_image`].
pub(crate) fn scan_bank<F: ReadWrite>(flash: &mut F, bank: Bank, check: &ImageCheck) -> (r: Result<Image, Error>)
    requires
        image_fits(bank),
    ensures
        same_flash(*final(flash), *old(flash)),
        r is Ok <==> scan_finds_image(*old(flash), bank, *check),
        r matches Ok(img) ==> describes(img, *old(flash), bank, *check),
        scan_error(r, *old(flash), bank, *check),
{
    let ghost f0 = *flash;
    let r = image_at(flash, bank, check);
    proof {
        if f0.readable(bank.location as int, bank.size as int) {
            crate::image::lemma_scan_size_bound(f0, bank);
        }
        lemma_scan_result(f0, bank, *check, r);
    }
    r
}

/// An MCU bank the boot bank can be restored from: of the wanted kind,
/// not the boot bank itself, and with an image that copies.
pub open spec fn mcu_source<F: ReadWrite>(f: F, boot: Bank, golden: bool, check: ImageCheck) -> spec_fn(Bank) -> bool {
    |b: Bank| b.is_golden == golden && b.index != boot.index && copy_ok(f, f, b, boot, golden, check)
}

/// An external bank the boot bank can be restored from: of the wanted
/// kind, with an image that copies.
pub open spec fn external_source<E: ReadWrite, F: ReadWrite>(
    e: E,
    f: F,
    boot: Bank,
    golden: bool,
    check: ImageCheck,
) -> spec_fn(Bank) -> bool {
    |b: Bank| b.is_golden == golden && copy_ok(e, f, b, boot, golden, check)
}

proof fn lemma_sources_same<E: ReadWrite, F: ReadWrite>(
    e1: E,
    e2: E,
    f1: F,
    f2: F,
    boot: Bank,
    golden: bool,
    check: ImageCheck,
)
    requires
        same_flash(e1, e2),
        same_flash(f1, f2),
    ensures
        mcu_source(f1, boot, golden, check) == mcu_source(f2, boot, golden, check),
        external_source(e1, f1, boot, golden, check) == external_source(e2, f2, boot, golden, check),
{
    assert forall|b: Bank| #[trigger] mcu_source(f1, boot, golden, check)(b) == mcu_source(f2, boot, golden, check)(b) by {
        lemma_copy_ok_same(f1, f2, f1, f2, b, boot, golden, check);
    }
    assert forall|b: Bank| #[trigger] external_source(e1, f1, boot, golden, check)(b) == external_source(e2, f2, boot, golden, check)(b) by {
        lemma_copy_ok_same(e1, e2, f1, f2, b, boot, golden, check);
    }
    assert(mcu_source(f1, boot, golden, check) =~= mcu_source(f2, boot, golden, check));
    assert(external_source(e1, f1, boot, golden, check) =~= external_source(e2, f2, boot, golden, check));
}

/// `after` is `before` with the image of bank `source` of `input` copied
/// into `boot`: the copied bytes and everything outside them and the
/// write's spill are as the contract of the copy states.
pub open spec fn restored<I: ReadWrite, F: ReadWrite>(input: I, before: F, after: F, source: Bank, boot: Bank, check: ImageCheck) -> bool {
    &&& copied(
        input.contents(),
        before.contents(),
        after.contents(),
        source,
        boot,
        found_total(input, source, check),
        before.spill(),
    )
    &&& after.spill() == before.spill()
    &&& forall|x: int, l: int| #[trigger] after.readable(x, l) == before.readable(x, l)
    &&& forall|x: int, l: int| #[trigger] after.writable(x, l) == before.writable(x, l)
}

/// `r` is what a scan of `bank` gives.
pub open spec fn scan_result<F: ReadWrite>(r: Result<Image, Error>, f: F, bank: Bank, check: ImageCheck) -> bool {
    &&& r is Ok <==> scan_finds_image(f, bank, check)
    &&& r matches Ok(img) ==> describes(img, f, bank, check)
}

/// Where a restore copies from: the first MCU bank, then the first external
/// bank, that holds a copyable image which is not golden; failing those,
/// the same for golden images. `true` marks an external bank.
pub open spec fn restore_source<M: ReadWrite, E: ReadWrite>(s: Bootloader<M, E>) -> Option<(bool, Bank)> {
    let boot = s.spec_boot_bank();
    let mcu = s.mcu_banks@;
    let ext = s.external_banks@;
    let m0 = first_index(mcu, mcu_source(s.mcu_flash, boot, false, s.check), 0);
    let m1 = first_index(mcu, mcu_source(s.mcu_flash, boot, true, s.check), 0);
    let has_ext = s.external_flash is Some;
    let e0 = first_index(ext, external_source(s.external_flash->0, s.mcu_flash, boot, false, s.check), 0);
    let e1 = first_index(ext, external_source(s.external_flash->0, s.mcu_flash, boot, true, s.check), 0);
    if m0 < mcu.len() {
        Some((false, mcu[m0]))
    } else if has_ext && e0 < ext.len() {
        Some((true, ext[e0]))
    } else if m1 < mcu.len() {
        Some((false, mcu[m1]))
    } else if has_ext && e1 < ext.len() {
        Some((true, ext[e1]))
    } else {
        None
    }
}

impl<M: ReadWrite, E: ReadWrite> Bootloader<M, E> {
    /// The boot bank is a bootable MCU bank that fits the address space.
    proof fn lemma_boot_bank(self)
        requires
            self.ready(),
        ensures
            0 <= self.boot_index() < self.mcu_banks@.len(),
            image_fits(self.spec_boot_bank()),
            self.spec_boot_bank().bootable,
    {
        lemma_first_index_found(self.mcu_banks@, is_boot_bank(), 0);
        assert(copy_fits(self.mcu_banks@[self.boot_index()], self.spec_boot_bank().location));
    }

    /// Restores the boot bank from the first MCU bank, other than the boot
    /// bank, that holds a copyable image of the given kind. `None` when
    /// there is none; otherwise the scan of the restored boot bank.
    fn restore_internal(&mut self, golden: bool) -> (r: Option<Result<Image, Error>>)
        requires
            old(self).ready(),
        ensures
            Self::settings_kept(*old(self), *final(self)),
            same_optional_flash(final(self).external_flash, old(self).external_flash),
            ({
                let boot = old(self).spec_boot_bank();
                let k = first_index(old(self).mcu_banks@, mcu_source(old(self).mcu_flash, boot, golden, old(self).check), 0);
                &&& k == old(self).mcu_banks@.len() ==> r is None && Self::unchanged(*old(self), *final(self))
                &&& k < old(self).mcu_banks@.len() ==> {
                    &&& r matches Some(res) && scan_result(res, final(self).mcu_flash, boot, final(self).check)
                    &&& restored(old(self).mcu_flash, old(self).mcu_flash, final(self).mcu_flash, old(self).mcu_banks@[k], boot, old(self).check)
                    &&& final(self).boot_metrics == (BootMetrics {
                        boot_path: BootPath::Restored { bank: old(self).mcu_banks@[k].index },
                        ..old(self).boot_metrics
                    })
                }
            }),
    {
        let boot = self.boot_bank();
        let ghost s0 = *self;
        let ghost p = mcu_source(s0.mcu_flash, boot, golden, s0.check);
        proof {
            lemma_first_index_found(s0.mcu_banks@, p, 0);
            s0.lemma_boot_bank();
        }
        let mut i: usize = 0;
        while i < self.mcu_banks.len()
            invariant
                i <= self.mcu_banks@.len(),
                s0.ready(),
                s0 == *old(self),
                image_fits(boot),
                boot == s0.spec_boot_bank(),
                p == mcu_source(s0.mcu_flash, boot, golden, s0.check),
                Self::unchanged(s0, *self),
                first_index(s0.mcu_banks@, p, 0) == first_index(s0.mcu_banks@, p, i as int),
            decreases self.mcu_banks@.len() - i,
        {
            let bank = self.mcu_banks[i];
            proof {
                lemma_copy_ok_same(self.mcu_flash, s0.mcu_flash, self.mcu_flash, s0.mcu_flash, bank, boot, golden, s0.check);
            }
            if bank.is_golden == golden && bank.index != boot.index {
                let copy = copy_image_single_flash(&mut self.mcu_flash, bank, boot, golden, &self.check);
                if copy.is_ok() {
                    self.boot_metrics.boot_path = BootPath::Restored { bank: bank.index };
                    let scanned = scan_bank(&mut self.mcu_flash, boot, &self.check);
                    return Some(scanned);
                }
            }
            i = i + 1;
        }
        None
    }

    /// Restores the boot bank from the first external bank that holds a
    /// copyable image of the given kind. `None` when there is none, or no
    /// external flash; otherwise the scan of the restored boot bank.
    fn restore_external(&mut self, golden: bool) -> (r: Option<Result<Image, Error>>)
        requires
            old(self).ready(),
        ensures
            Self::settings_kept(*old(self), *final(self)),
            same_optional_flash(final(self).external_flash, old(self).external_flash),
            ({
                let boot = old(self).spec_boot_bank();
                let k = first_index(old(self).external_banks@, external_source(old(self).external_flash->0, old(self).mcu_flash, boot, golden, old(self).check), 0);
                &&& (old(self).external_flash is None || k == old(self).external_banks@.len()) ==> r is None && Self::unchanged(*old(self), *final(self))
                &&& (old(self).external_flash is Some && k < old(self).external_banks@.len()) ==> {
                    &&& r matches Some(res) && scan_result(res, final(self).mcu_flash, boot, final(self).check)
                    &&& restored(old(self).external_flash->0, old(self).mcu_flash, final(self).mcu_flash, old(self).external_banks@[k], boot, old(self).check)
                    &&& final(self).boot_metrics == (BootMetrics {
                        boot_path: BootPath::Restored { bank: old(self).external_banks@[k].index },
                        ..old(self).boot_metrics
                    })
                }
            }),
    {
        let boot = self.boot_bank();
        let ghost s0 = *self;
        if self.external_flash.is_none() {
            return None;
        }
        let ghost e0 = s0.external_flash->0;
        let ghost p = external_source(e0, s0.mcu_flash, boot, golden, s0.check);
        proof {
            lemma_first_index_found(s0.external_banks@, p, 0);
            s0.lemma_boot_bank();
        }
        let mut i: usize = 0;
        while i < self.external_banks.len()
            invariant
                i <= self.external_banks@.len(),
                s0.ready(),
                s0 == *old(self),
                image_fits(boot),
                s0.external_flash == Some(e0),
                boot == s0.spec_boot_bank(),
                p == external_source(e0, s0.mcu_flash, boot, golden, s0.check),
                Self::unchanged(s0, *self),
                first_index(s0.external_banks@, p, 0) == first_index(s0.external_banks@, p, i as int),
            decreases self.external_banks@.len() - i,
        {
            let bank = self.external_banks[i];
            if bank.is_golden == golden {
                match &mut self.external_flash {
                    Some(ext) => {
                        proof {
                            lemma_copy_ok_same(*ext, e0, self.mcu_flash, s0.mcu_flash, bank, boot, golden, s0.check);
                        }
                        let copy = copy_image(ext, &mut self.mcu_flash, bank, boot, golden, &self.check);
                        if copy.is_ok() {
                            self.boot_metrics.boot_path = BootPath::Restored { bank: bank.index };
                            let scanned = scan_bank(&mut self.mcu_flash, boot, &self.check);
                            return Some(scanned);
                        }
                    },
                    None => {},
                }
            }
            i = i + 1;
        }
        None
    }
}


/// What a restore gives: the boot bank restored from [`restore_source`]
/// (with the boot path recorded) and the scan of the restored boot bank, or,
/// with no source, nothing changed and no image.
pub open spec fn restore_outcome<M: ReadWrite, E: ReadWrite>(r: Result<Image, Error>, a: Bootloader<M, E>, b: Bootloader<M, E>) -> bool {
    let boot = a.spec_boot_bank();
    &&& Bootloader::settings_kept(a, b)
    &&& same_optional_flash(b.external_flash, a.external_flash)
    &&& r is Err ==> r == Err::<Image, Error>(Error::NoImageToRestoreFrom)
    &&& restore_source(a) is None ==> r is Err && Bootloader::unchanged(a, b)
    &&& restore_source(a) matches Some((external, source)) ==> {
        &&& scan_result(r, b.mcu_flash, boot, a.check)
        &&& external ==> restored(a.external_flash->0, a.mcu_flash, b.mcu_flash, source, boot, a.check)
        &&& !external ==> restored(a.mcu_flash, a.mcu_flash, b.mcu_flash, source, boot, a.check)
        &&& b.boot_metrics == (BootMetrics { boot_path: BootPath::Restored { bank: source.index }, ..a.boot_metrics })
    }
}

impl<M: ReadWrite, E: ReadWrite> Bootloader<M, E> {
    /// States that nothing observable changed agree on where a restore
    /// copies from.
    proof fn lemma_unchanged_source(a: Self, b: Self)
        requires
            Self::unchanged(a, b),
        ensures
            restore_source(a) == restore_source(b),
            a.ready() == b.ready(),
            a.spec_boot_bank() == b.spec_boot_bank(),
            forall|g: bool| #[trigger] mcu_source(a.mcu_flash, a.spec_boot_bank(), g, a.check) == mcu_source(b.mcu_flash, a.spec_boot_bank(), g, a.check),
            a.external_flash is Some ==> forall|g: bool| #[trigger] external_source(a.external_flash->0, a.mcu_flash, a.spec_boot_bank(), g, a.check) == external_source(b.external_flash->0, b.mcu_flash, a.spec_boot_bank(), g, a.check),
    {
        let boot = a.spec_boot_bank();
        if a.external_flash is Some {
            lemma_sources_same(a.external_flash->0, b.external_flash->0, a.mcu_flash, b.mcu_flash, boot, false, a.check);
            lemma_sources_same(a.external_flash->0, b.external_flash->0, a.mcu_flash, b.mcu_flash, boot, true, a.check);
        } else {
            lemma_sources_same(a.mcu_flash, b.mcu_flash, a.mcu_flash, b.mcu_flash, boot, false, a.check);
            lemma_sources_same(a.mcu_flash, b.mcu_flash, a.mcu_flash, b.mcu_flash, boot, true, a.check);
        }
        assert forall|g: bool| #[trigger] mcu_source(a.mcu_flash, boot, g, a.check) == mcu_source(b.mcu_flash, boot, g, a.check) by {
            lemma_sources_same(a.mcu_flash, b.mcu_flash, a.mcu_flash, b.mcu_flash, boot, g, a.check);
        }
        if a.external_flash is Some {
            assert forall|g: bool| #[trigger] external_source(a.external_flash->0, a.mcu_flash, boot, g, a.check) == external_source(b.external_flash->0, b.mcu_flash, boot, g, a.check) by {
                lemma_sources_same(a.external_flash->0, b.external_flash->0, a.mcu_flash, b.mcu_flash, boot, g, a.check);
            }
        }
    }

    /// Restores the boot bank from the first bank that holds a copyable
    /// image: MCU banks first, then external banks, leaving golden images
    /// as a last resort. The restored boot bank is then scanned again,
    /// and its image returned.
    pub fn restore(&mut self) -> (r: Result<Image, Error>)
        requires
            old(self).ready(),
        ensures
            restore_outcome(r, *old(self), *final(self)),
    {
        let ghost s0 = *self;
        proof {
            let boot = s0.spec_boot_bank();
            let e = s0.external_flash->0;
            lemma_first_index_found(s0.mcu_banks@, mcu_source(s0.mcu_flash, boot, false, s0.check), 0);
            lemma_first_index_found(s0.mcu_banks@, mcu_source(s0.mcu_flash, boot, true, s0.check), 0);
            lemma_first_index_found(s0.external_banks@, external_source(e, s0.mcu_flash, boot, false, s0.check), 0);
            lemma_first_index_found(s0.external_banks@, external_source(e, s0.mcu_flash, boot, true, s0.check), 0);
        }
        if let Some(res) = self.restore_internal(false) {
            return match res {
                Ok(image) => Ok(image),
                Err(_) => Err(Error::NoImageToRestoreFrom),
            };
        }
        proof {
            Self::lemma_unchanged_source(s0, *self);
        }
        if let Some(res) = self.restore_external(false) {
            return match res {
                Ok(image) => Ok(image),
                Err(_) => Err(Error::NoImageToRestoreFrom),
            };
        }
        proof {
            Self::lemma_unchanged_source(s0, *self);
        }
        if let Some(res) = self.restore_internal(true) {
            return match res {
                Ok(image) => Ok(image),
                Err(_) => Err(Error::NoImageToRestoreFrom),
            };
        }
        proof {
            Self::lemma_unchanged_source(s0, *self);
        }
        if let Some(res) = self.restore_external(true) {
            return match res {
                Ok(image) => Ok(image),
                Err(_) => Err(Error::NoImageToRestoreFrom),
            };
        }
        Err(Error::NoImageToRestoreFrom)
    }
}


/// The images found in two banks carry the same identifier: the same CRC,
/// or the same signature.
pub open spec fn same_image_id<F: ReadWrite, G: ReadWrite>(f: F, fb: Bank, g: G, gb: Bank, check: ImageCheck) -> bool {
    match check {
        ImageCheck::Crc => crc32_ieee(checked_message(f, fb)) == crc32_ieee(checked_message(g, gb)),
        ImageCheck::P256Ecdsa(_) => trailer_bytes(f, fb, check) == trailer_bytes(g, gb, check),
    }
}

proof fn lemma_same_id<F: ReadWrite, G: ReadWrite>(a: Image, f: F, fb: Bank, b: Image, g: G, gb: Bank, check: ImageCheck)
    requires
        describes(a, f, fb, check),
        describes(b, g, gb, check),
    ensures
        (a.spec_identifier() == b.spec_identifier()) == same_image_id(f, fb, g, gb, check),
{
    broadcast use vstd::array::axiom_array_ext_equal;
    match check {
        ImageCheck::Crc => {},
        ImageCheck::P256Ecdsa(_) => {
            if let Identifier::Signature(x) = a.spec_identifier() {
                if let Identifier::Signature(y) = b.spec_identifier() {
                    if x@ == y@ {
                        assert(x =~= y);
                    }
                }
            }
        },
    }
}

/// An MCU bank an update may come from: not the boot bank, not golden, the
/// bank the update signal names if it names one, and holding a valid image.
pub open spec fn mcu_update_candidate<F: ReadWrite>(f: F, boot: Bank, target: Option<u8>, check: ImageCheck) -> spec_fn(Bank) -> bool {
    |b: Bank| b.index != boot.index && !b.is_golden && (target matches Some(t) ==> t == b.index)
        && scan_finds_image(f, b, check)
}

/// An external bank an update may come from: not golden, the bank the
/// update signal names if it names one, and holding a valid image.
pub open spec fn external_update_candidate<E: ReadWrite>(e: E, target: Option<u8>, check: ImageCheck) -> spec_fn(Bank) -> bool {
    |b: Bank| !b.is_golden && (target matches Some(t) ==> t == b.index) && scan_finds_image(e, b, check)
}

/// The outcome of an update step.
pub enum UpdateResult {
    /// The candidate holds the image already booted.
    AlreadyUpToDate(Image),
    /// No candidate was found; the current image stays.
    NotUpdated(Image),
    /// The boot bank now holds this newer image.
    UpdatedTo(Image),
    /// Copying the newer image, or scanning it after the copy, failed.
    UpdateError,
}

/// What replacing the boot image with the image in `source` of `input`
/// gives: when the image copies, the boot bank holds the copy and the
/// result is its scan (with the boot path recorded); otherwise nothing
/// changes and the result is `None`.
pub open spec fn replace_outcome<I: ReadWrite, M: ReadWrite, E: ReadWrite>(
    r: Option<Image>,
    input: I,
    a: Bootloader<M, E>,
    b: Bootloader<M, E>,
    source: Bank,
) -> bool {
    let boot = a.spec_boot_bank();
    if copy_ok(input, a.mcu_flash, source, boot, false, a.check) {
        &&& restored(input, a.mcu_flash, b.mcu_flash, source, boot, a.check)
        &&& (r is Some <==> scan_finds_image(b.mcu_flash, boot, a.check))
        &&& r matches Some(img) ==> describes(img, b.mcu_flash, boot, a.check) && b.boot_metrics == (
        BootMetrics { boot_path: BootPath::Updated { bank: source.index }, ..a.boot_metrics })
        &&& r is None ==> b.boot_metrics == a.boot_metrics
    } else {
        r is None && same_flash(b.mcu_flash, a.mcu_flash) && b.boot_metrics == a.boot_metrics
    }
}

/// The image an update step leaves booted, if any.
pub open spec fn updated_image(r: UpdateResult) -> Option<Image> {
    match r {
        UpdateResult::UpdatedTo(img) => Some(img),
        _ => None,
    }
}

/// Where an update comes from: the first MCU candidate, failing that the
/// first external candidate. `true` marks an external bank.
pub open spec fn update_source<M: ReadWrite, E: ReadWrite>(s: Bootloader<M, E>, target: Option<u8>) -> Option<(bool, Bank)> {
    let boot = s.spec_boot_bank();
    let k = first_index(s.mcu_banks@, mcu_update_candidate(s.mcu_flash, boot, target, s.check), 0);
    let j = first_index(s.external_banks@, external_update_candidate(s.external_flash->0, target, s.check), 0);
    if k < s.mcu_banks@.len() {
        Some((false, s.mcu_banks@[k]))
    } else if s.external_flash is Some && j < s.external_banks@.len() {
        Some((true, s.external_banks@[j]))
    } else {
        None
    }
}

/// The bank an update signal names, if any.
pub open spec fn plan_target(plan: Option<UpdatePlan>) -> Option<u8> {
    match plan {
        Some(UpdatePlan::Index(i)) => Some(i),
        _ => None,
    }
}

/// `after` is `before` with `data` written at `at`; bytes outside the
/// write and its spill keep their value.
pub open spec fn written(before: Seq<u8>, after: Seq<u8>, at: int, data: Seq<u8>, spill: nat) -> bool {
    &&& after.len() == before.len()
    &&& forall|i: int| at <= i < at + data.len() ==> #[trigger] after[i] == data[i - at]
    &&& forall|i: int|
        0 <= i < before.len() && !(at <= i < at + data.len() + spill) ==> #[trigger] after[i] == before[i]
}

impl<M: ReadWrite, E: ReadWrite> Bootloader<M, E> {
    /// Replaces the boot image with the image in an MCU bank.
    fn replace_image_internal(&mut self, bank: Bank, boot: Bank) -> (r: Option<Image>)
        requires
            old(self).ready(),
            boot == old(self).spec_boot_bank(),
            bank.index != boot.index,
            copy_fits(bank, boot.location),
        ensures
            Self::settings_kept(*old(self), *final(self)),
            same_optional_flash(final(self).external_flash, old(self).external_flash),
            replace_outcome(r, old(self).mcu_flash, *old(self), *final(self), bank),
    {
        proof {
            old(self).lemma_boot_bank();
        }
        let copy = copy_image_single_flash(&mut self.mcu_flash, bank, boot, false, &self.check);
        if copy.is_err() {
            return None;
        }
        let scanned = scan_bank(&mut self.mcu_flash, boot, &self.check);
        match scanned {
            Ok(image) => {
                self.boot_metrics.boot_path = BootPath::Updated { bank: bank.index };
                Some(image)
            },
            Err(_) => None,
        }
    }

    /// Replaces the boot image with the image in an external bank.
    fn replace_image_external(&mut self, bank: Bank, boot: Bank) -> (r: Option<Image>)
        requires
            old(self).ready(),
            old(self).external_flash is Some,
            boot == old(self).spec_boot_bank(),
            copy_fits(bank, boot.location),
        ensures
            Self::settings_kept(*old(self), *final(self)),
            same_optional_flash(final(self).external_flash, old(self).external_flash),
            replace_outcome(r, old(self).external_flash->0, *old(self), *final(self), bank),
    {
        proof {
            old(self).lemma_boot_bank();
        }
        let copy = match &mut self.external_flash {
            Some(ext) => copy_image(ext, &mut self.mcu_flash, bank, boot, false, &self.check),
            None => Err(Error::NoExternalFlash),
        };
        if copy.is_err() {
            return None;
        }
        let scanned = scan_bank(&mut self.mcu_flash, boot, &self.check);
        match scanned {
            Ok(image) => {
                self.boot_metrics.boot_path = BootPath::Updated { bank: bank.index };
                Some(image)
            },
            Err(_) => None,
        }
    }
}


impl<M: ReadWrite, E: ReadWrite> Bootloader<M, E> {
    /// Looks through the MCU banks, other than the boot bank and golden
    /// banks, and only at the target bank when there is one, for the first
    /// valid image. If it differs from the current one, it replaces it.
    fn update_internal(&mut self, boot: Bank, current: Image, target: Option<u8>) -> (r: UpdateResult)
        requires
            old(self).ready(),
            boot == old(self).spec_boot_bank(),
            describes(current, old(self).mcu_flash, boot, old(self).check),
        ensures
            Self::settings_kept(*old(self), *final(self)),
            same_optional_flash(final(self).external_flash, old(self).external_flash),
            ({
                let f = old(self).mcu_flash;
                let k = first_index(old(self).mcu_banks@, mcu_update_candidate(f, boot, target, old(self).check), 0);
                &&& k == old(self).mcu_banks@.len() ==> r == UpdateResult::NotUpdated(current) && Self::unchanged(*old(self), *final(self))
                &&& k < old(self).mcu_banks@.len() && same_image_id(f, old(self).mcu_banks@[k], f, boot, old(self).check)
                    ==> r == UpdateResult::AlreadyUpToDate(current) && Self::unchanged(*old(self), *final(self))
                &&& k < old(self).mcu_banks@.len() && !same_image_id(f, old(self).mcu_banks@[k], f, boot, old(self).check) ==> {
                    &&& r is UpdatedTo || r is UpdateError
                    &&& replace_outcome(updated_image(r), f, *old(self), *final(self), old(self).mcu_banks@[k])
                }
            }),
    {
        let ghost s0 = *self;
        let ghost p = mcu_update_candidate(s0.mcu_flash, boot, target, s0.check);
        proof {
            lemma_first_index_found(s0.mcu_banks@, p, 0);
            s0.lemma_boot_bank();
        }
        let mut i: usize = 0;
        while i < self.mcu_banks.len()
            invariant
                i <= self.mcu_banks@.len(),
                s0 == *old(self),
                s0.ready(),
                image_fits(boot),
                boot == s0.spec_boot_bank(),
                describes(current, s0.mcu_flash, boot, s0.check),
                p == mcu_update_candidate(s0.mcu_flash, boot, target, s0.check),
                Self::unchanged(s0, *self),
                first_index(s0.mcu_banks@, p, 0) == first_index(s0.mcu_banks@, p, i as int),
            decreases self.mcu_banks@.len() - i,
        {
            let bank = self.mcu_banks[i];
            assert(copy_fits(s0.mcu_banks@[i as int], boot.location));
            let skip_nontarget_bank = match target {
                Some(t) => t != bank.index,
                None => false,
            };
            if bank.index != boot.index && !bank.is_golden && !skip_nontarget_bank {
                let ghost before = self.mcu_flash;
                proof {
                    lemma_copy_ok_same(before, s0.mcu_flash, before, s0.mcu_flash, bank, boot, false, s0.check);
                }
                let scanned = scan_bank(&mut self.mcu_flash, bank, &self.check);
                match scanned {
                    Ok(image) => {
                        proof {
                            lemma_same_id(image, s0.mcu_flash, bank, current, s0.mcu_flash, boot, s0.check);
                        }
                        if !image.same_identifier(&current) {
                            return match self.replace_image_internal(bank, boot) {
                                Some(updated) => UpdateResult::UpdatedTo(updated),
                                None => UpdateResult::UpdateError,
                            };
                        }
                        return UpdateResult::AlreadyUpToDate(current);
                    },
                    Err(_) => {},
                }
            }
            i = i + 1;
        }
        UpdateResult::NotUpdated(current)
    }

    /// Looks through the external banks, other than golden banks, and only
    /// at the target bank when there is one, for the first valid image. If
    /// it differs from the current one, it replaces it.
    fn update_external(&mut self, boot: Bank, current: Image, target: Option<u8>) -> (r: UpdateResult)
        requires
            old(self).ready(),
            boot == old(self).spec_boot_bank(),
            describes(current, old(self).mcu_flash, boot, old(self).check),
        ensures
            Self::settings_kept(*old(self), *final(self)),
            same_optional_flash(final(self).external_flash, old(self).external_flash),
            ({
                let f = old(self).mcu_flash;
                let e = old(self).external_flash->0;
                let k = first_index(old(self).external_banks@, external_update_candidate(e, target, old(self).check), 0);
                &&& (old(self).external_flash is None || k == old(self).external_banks@.len()) ==> r == UpdateResult::NotUpdated(current) && Self::unchanged(*old(self), *final(self))
                &&& old(self).external_flash is Some && k < old(self).external_banks@.len() && same_image_id(e, old(self).external_banks@[k], f, boot, old(self).check)
                    ==> r == UpdateResult::AlreadyUpToDate(current) && Self::unchanged(*old(self), *final(self))
                &&& old(self).external_flash is Some && k < old(self).external_banks@.len() && !same_image_id(e, old(self).external_banks@[k], f, boot, old(self).check) ==> {
                    &&& r is UpdatedTo || r is UpdateError
                    &&& replace_outcome(updated_image(r), e, *old(self), *final(self), old(self).external_banks@[k])
                }
            }),
    {
        let ghost s0 = *self;
        if self.external_flash.is_none() {
            return UpdateResult::NotUpdated(current);
        }
        let ghost e0 = s0.external_flash->0;
        let ghost p = external_update_candidate(e0, target, s0.check);
        proof {
            lemma_first_index_found(s0.external_banks@, p, 0);
            s0.lemma_boot_bank();
        }
        let mut i: usize = 0;
        while i < self.external_banks.len()
            invariant
                i <= self.external_banks@.len(),
                s0 == *old(self),
                s0.ready(),
                s0.external_flash == Some(e0),
                image_fits(boot),
                boot == s0.spec_boot_bank(),
                describes(current, s0.mcu_flash, boot, s0.check),
                p == external_update_candidate(e0, target, s0.check),
                Self::unchanged(s0, *self),
                first_index(s0.external_banks@, p, 0) == first_index(s0.external_banks@, p, i as int),
            decreases self.external_banks@.len() - i,
        {
            let bank = self.external_banks[i];
            assert(copy_fits(s0.external_banks@[i as int], boot.location));
            let skip_nontarget_bank = match target {
                Some(t) => t != bank.index,
                None => false,
            };
            if !bank.is_golden && !skip_nontarget_bank {
                let scanned = match &mut self.external_flash {
                    Some(ext) => {
                        proof {
                            lemma_copy_ok_same(*ext, e0, self.mcu_flash, s0.mcu_flash, bank, boot, false, s0.check);
                        }
                        scan_bank(ext, bank, &self.check)
                    },
                    None => Err(Error::NoExternalFlash),
                };
                match scanned {
                    Ok(image) => {
                        proof {
                            lemma_same_id(image, e0, bank, current, s0.mcu_flash, boot, s0.check);
                        }
                        if !image.same_identifier(&current) {
                            return match self.replace_image_external(bank, boot) {
                                Some(updated) => UpdateResult::UpdatedTo(updated),
                                None => UpdateResult::UpdateError,
                            };
                        }
                        return UpdateResult::AlreadyUpToDate(current);
                    },
                    Err(_) => {},
                }
            }
            i = i + 1;
        }
        UpdateResult::NotUpdated(current)
    }
}


/// What a serial update gives: when the image can be written to the boot
/// bank, the boot bank holds it and the result is its scan; otherwise
/// nothing changes and there is no image.
pub open spec fn serial_outcome<M: ReadWrite, E: ReadWrite>(
    r: Option<Image>,
    a: Bootloader<M, E>,
    b: Bootloader<M, E>,
    image: Seq<u8>,
) -> bool {
    let boot = a.spec_boot_bank();
    &&& b.boot_metrics == a.boot_metrics
    &&& a.mcu_flash.writable(boot.location as int, image.len() as int) ==> {
        &&& written(a.mcu_flash.contents(), b.mcu_flash.contents(), boot.location as int, image, a.mcu_flash.spill())
        &&& b.mcu_flash.spill() == a.mcu_flash.spill()
        &&& forall|x: int, l: int| #[trigger] b.mcu_flash.readable(x, l) == a.mcu_flash.readable(x, l)
        &&& forall|x: int, l: int| #[trigger] b.mcu_flash.writable(x, l) == a.mcu_flash.writable(x, l)
        &&& (r is Some <==> scan_finds_image(b.mcu_flash, boot, a.check))
        &&& r matches Some(img) ==> describes(img, b.mcu_flash, boot, a.check)
    }
    &&& !a.mcu_flash.writable(boot.location as int, image.len() as int) ==> r is None && same_flash(b.mcu_flash, a.mcu_flash)
}

/// The image that a run of the bootloader leaves in the boot bank, when the
/// boot bank held a valid image to begin with and no serial update was
/// asked for: the current image, unless a newer one is found in another
/// bank and copied over it.
pub open spec fn update_outcome<M: ReadWrite, E: ReadWrite>(
    r: Option<Image>,
    a: Bootloader<M, E>,
    b: Bootloader<M, E>,
    target: Option<u8>,
) -> bool {
    let boot = a.spec_boot_bank();
    let f = a.mcu_flash;
    match update_source(a, target) {
        None => r matches Some(img) && describes(img, f, boot, a.check) && Bootloader::unchanged(a, b),
        Some((external, source)) => {
            let input_flash_same = if external {
                same_image_id(a.external_flash->0, source, f, boot, a.check)
            } else {
                same_image_id(f, source, f, boot, a.check)
            };
            if input_flash_same {
                r matches Some(img) && describes(img, f, boot, a.check) && Bootloader::unchanged(a, b)
            } else if external {
                replace_outcome(r, a.external_flash->0, a, b, source)
            } else {
                replace_outcome(r, f, a, b, source)
            }
        },
    }
}

/// What looking for the image to boot gives: nothing when the boot bank
/// holds no valid image; otherwise the current image when the update signal
/// forbids updates, the serial update's result when it asks for one, and
/// the outcome of an update from other banks when it allows one.
pub open spec fn latest_outcome<M: ReadWrite, E: ReadWrite>(r: Option<Image>, a: Bootloader<M, E>, b: Bootloader<M, E>, serial_image: Seq<u8>) -> bool {
    let boot = a.spec_boot_bank();
    let f = a.mcu_flash;
    &&& Bootloader::settings_kept(a, b)
    &&& same_optional_flash(b.external_flash, a.external_flash)
    &&& !scan_finds_image(f, boot, a.check) ==> r is None && Bootloader::unchanged(a, b)
    &&& scan_finds_image(f, boot, a.check) ==> match a.update_plan {
        Some(UpdatePlan::NoUpdate) => r matches Some(img) && describes(img, f, boot, a.check) && Bootloader::unchanged(a, b),
        Some(UpdatePlan::Serial) => serial_outcome(r, a, b, serial_image),
        _ => update_outcome(r, a, b, plan_target(a.update_plan)),
    }
}

impl<M: ReadWrite, E: ReadWrite> Bootloader<M, E> {
    /// Writes an image received over serial into the boot bank, and scans it.
    pub fn attempt_serial_update(&mut self, image: &[u8]) -> (r: Option<Image>)
        requires
            old(self).ready(),
        ensures
            Self::settings_kept(*old(self), *final(self)),
            same_optional_flash(final(self).external_flash, old(self).external_flash),
            serial_outcome(r, *old(self), *final(self), image@),
    {
        proof {
            old(self).lemma_boot_bank();
        }
        let bank = self.boot_bank();
        if self.mcu_flash.write(bank.location, image).is_err() {
            return None;
        }
        match scan_bank(&mut self.mcu_flash, bank, &self.check) {
            Ok(found) => Some(found),
            Err(_) => None,
        }
    }

    /// The image to boot: the current image in the boot bank, unless the
    /// update signal allows an update and another bank holds a different
    /// valid image, which then replaces it. Golden banks are never updated
    /// from. When the update signal asks for a serial update, `serial_image`
    /// (the image received) is written into the boot bank instead.
    pub fn latest_bootable_image(&mut self, serial_image: &[u8]) -> (r: Option<Image>)
        requires
            old(self).ready(),
        ensures
            latest_outcome(r, *old(self), *final(self), serial_image@),
    {
        proof {
            old(self).lemma_boot_bank();
        }
        let ghost s0 = *self;
        let boot_bank = self.boot_bank();
        let current_image = match scan_bank(&mut self.mcu_flash, boot_bank, &self.check) {
            Ok(image) => image,
            Err(_) => return None,
        };
        proof {
            Self::lemma_unchanged_source(s0, *self);
            Self::lemma_unchanged_update(s0, *self);
        }
        let target = match self.update_plan {
            None => None,
            Some(UpdatePlan::NoUpdate) => return Some(current_image),
            Some(UpdatePlan::Any) => None,
            Some(UpdatePlan::Index(i)) => Some(i),
            Some(UpdatePlan::Serial) => return self.attempt_serial_update(serial_image),
        };
        let ghost s1 = *self;
        proof {
            let e = s0.external_flash->0;
            lemma_first_index_found(s0.mcu_banks@, mcu_update_candidate(s0.mcu_flash, boot_bank, target, s0.check), 0);
            lemma_first_index_found(s0.external_banks@, external_update_candidate(e, target, s0.check), 0);
        }
        let ghost s2 = *self;
        let internal = self.update_internal(boot_bank, current_image, target);
        proof {
            if Self::unchanged(s2, *self) {
                Self::lemma_unchanged_trans(s0, s2, *self);
            }
        }
        let current_image = match internal {
            UpdateResult::NotUpdated(image) => image,
            UpdateResult::AlreadyUpToDate(image) => return Some(image),
            UpdateResult::UpdatedTo(image) => return Some(image),
            UpdateResult::UpdateError => return None,
        };
        proof {
            Self::lemma_unchanged_update(s0, *self);
        }
        let ghost s3 = *self;
        let external = self.update_external(boot_bank, current_image, target);
        proof {
            if Self::unchanged(s3, *self) {
                Self::lemma_unchanged_trans(s0, s3, *self);
            }
        }
        match external {
            UpdateResult::NotUpdated(image) => Some(image),
            UpdateResult::AlreadyUpToDate(image) => Some(image),
            UpdateResult::UpdatedTo(image) => Some(image),
            UpdateResult::UpdateError => None,
        }
    }

    proof fn lemma_unchanged_trans(a: Self, b: Self, c: Self)
        requires
            Self::unchanged(a, b),
            Self::unchanged(b, c),
        ensures
            Self::unchanged(a, c),
    {
        assert forall|x: int, l: int| #[trigger] a.mcu_flash.readable(x, l) == c.mcu_flash.readable(x, l) by {
            assert(b.mcu_flash.readable(x, l) == c.mcu_flash.readable(x, l));
        }
        assert forall|x: int, l: int| #[trigger] a.mcu_flash.writable(x, l) == c.mcu_flash.writable(x, l) by {
            assert(b.mcu_flash.writable(x, l) == c.mcu_flash.writable(x, l));
        }
        if a.external_flash is Some {
            let (ea, eb, ec) = (a.external_flash->0, b.external_flash->0, c.external_flash->0);
            assert forall|x: int, l: int| #[trigger] ea.readable(x, l) == ec.readable(x, l) by {
                assert(eb.readable(x, l) == ec.readable(x, l));
            }
            assert forall|x: int, l: int| #[trigger] ea.writable(x, l) == ec.writable(x, l) by {
                assert(eb.writable(x, l) == ec.writable(x, l));
            }
        }
    }

    /// States that nothing observable changed agree on update candidates.
    proof fn lemma_unchanged_update(a: Self, b: Self)
        requires
            Self::unchanged(a, b),
        ensures
            forall|t: Option<u8>| #[trigger] mcu_update_candidate(a.mcu_flash, a.spec_boot_bank(), t, a.check) == mcu_update_candidate(b.mcu_flash, a.spec_boot_bank(), t, a.check),
            a.external_flash is Some ==> forall|t: Option<u8>| #[trigger] external_update_candidate(a.external_flash->0, t, a.check) == external_update_candidate(b.external_flash->0, t, a.check),
            forall|img: Image, bank: Bank| #[trigger] describes(img, a.mcu_flash, bank, a.check) == describes(img, b.mcu_flash, bank, a.check),
            forall|x: Bank, y: Bank| #[trigger] same_image_id(a.mcu_flash, x, a.mcu_flash, y, a.check) == same_image_id(b.mcu_flash, x, b.mcu_flash, y, a.check),
            a.external_flash is Some ==> forall|x: Bank, y: Bank| #[trigger] same_image_id(a.external_flash->0, x, a.mcu_flash, y, a.check) == same_image_id(b.external_flash->0, x, b.mcu_flash, y, a.check),
    {
        let boot = a.spec_boot_bank();
        assert forall|t: Option<u8>| #[trigger] mcu_update_candidate(a.mcu_flash, boot, t, a.check) == mcu_update_candidate(b.mcu_flash, boot, t, a.check) by {
            assert forall|x: Bank| #[trigger] mcu_update_candidate(a.mcu_flash, boot, t, a.check)(x) == mcu_update_candidate(b.mcu_flash, boot, t, a.check)(x) by {
                lemma_copy_ok_same(a.mcu_flash, b.mcu_flash, a.mcu_flash, b.mcu_flash, x, boot, false, a.check);
            }
            assert(mcu_update_candidate(a.mcu_flash, boot, t, a.check) =~= mcu_update_candidate(b.mcu_flash, boot, t, a.check));
        }
        if a.external_flash is Some {
            let ea = a.external_flash->0;
            let eb = b.external_flash->0;
            assert forall|t: Option<u8>| #[trigger] external_update_candidate(ea, t, a.check) == external_update_candidate(eb, t, a.check) by {
                assert forall|x: Bank| #[trigger] external_update_candidate(ea, t, a.check)(x) == external_update_candidate(eb, t, a.check)(x) by {
                    lemma_copy_ok_same(ea, eb, a.mcu_flash, b.mcu_flash, x, boot, false, a.check);
                }
                assert(external_update_candidate(ea, t, a.check) =~= external_update_candidate(eb, t, a.check));
            }
        }
    }
}


/// Banks that hold golden images, or banks that do not.
pub open spec fn golden_is(golden: bool) -> spec_fn(Bank) -> bool {
    |b: Bank| b.is_golden == golden
}

/// What recovery mode receives over serial, and where it writes it.
#[derive(Copy, Clone, Debug, PartialEq, Eq)]
pub enum RecoveryStep {
    /// A golden image (or any image, when `golden` is false) into an MCU bank.
    Internal { golden: bool },
    /// A golden image (or any image, when `golden` is false) into an external bank.
    External { golden: bool },
    /// Nothing can be recovered; reboot.
    Nothing,
}

/// What the bootloader does once it has scanned, updated and restored.
#[derive(Copy, Clone, Debug, PartialEq, Eq)]
pub enum BootDecision {
    /// Boot this image, which the boot bank holds.
    Boot(Image),
    /// Enter serial recovery mode.
    Recover,
    /// Nothing can be booted and recovery is not available: stop.
    Halt,
}

/// The recovery step that a layout calls for: a golden image into the MCU
/// golden bank, failing that into the external golden bank; with no golden
/// bank at all, a plain image straight into the bootable MCU bank.
pub open spec fn recovery_step<M: ReadWrite, E: ReadWrite>(s: Bootloader<M, E>) -> RecoveryStep {
    let mcu_golden = first_index(s.mcu_banks@, is_golden_bank(), 0) < s.mcu_banks@.len();
    let ext_golden = first_index(s.external_banks@, is_golden_bank(), 0) < s.external_banks@.len();
    if mcu_golden {
        RecoveryStep::Internal { golden: true }
    } else if s.external_flash is Some && ext_golden {
        RecoveryStep::External { golden: true }
    } else if !ext_golden {
        RecoveryStep::Internal { golden: false }
    } else {
        RecoveryStep::Nothing
    }
}

/// What writing a received image into `bank` and scanning it gives.
pub open spec fn recovery_outcome<F: ReadWrite>(r: Result<(), Error>, a: F, b: F, bank: Bank, golden: bool, check: ImageCheck, image: Seq<u8>) -> bool {
    &&& a.writable(bank.location as int, image.len() as int) ==> {
        &&& written(a.contents(), b.contents(), bank.location as int, image, a.spill())
        &&& b.spill() == a.spill()
        &&& forall|x: int, l: int| #[trigger] b.readable(x, l) == a.readable(x, l)
        &&& forall|x: int, l: int| #[trigger] b.writable(x, l) == a.writable(x, l)
        &&& (r is Ok <==> scan_finds_image(b, bank, check) && (golden ==> golden_in(b, bank)))
        &&& scan_finds_image(b, bank, check) && golden && !golden_in(b, bank) ==> r == Err::<(), Error>(Error::ImageIsNotGolden)
        &&& scan_failure(b, bank, check) matches Some(e) ==> r == Err::<(), Error>(e)
    }
    &&& !a.writable(bank.location as int, image.len() as int) ==> r is Err && same_flash(b, a)
}

/// Writes a received image into `bank` and checks it.
fn flash_received_image<F: ReadWrite>(flash: &mut F, bank: Bank, golden: bool, check: &ImageCheck, image: &[u8]) -> (r: Result<(), Error>)
    requires
        image_fits(bank),
    ensures
        recovery_outcome(r, *old(flash), *final(flash), bank, golden, *check, image@),
{
    flash.write(bank.location, image)?;
    match scan_bank(flash, bank, check) {
        Ok(found) => {
            if golden && !found.is_golden() {
                Err(Error::ImageIsNotGolden)
            } else {
                Ok(())
            }
        },
        Err(e) => Err(e),
    }
}

impl<M: ReadWrite, E: ReadWrite> Bootloader<M, E> {
    /// The first bank of `banks` whose golden flag is `golden`.
    fn find_bank(banks: &Vec<Bank>, golden: bool) -> (r: Option<Bank>)
        ensures
            ({
                let k = first_index(banks@, golden_is(golden), 0);
                &&& k == banks@.len() ==> r is None
                &&& k < banks@.len() ==> r == Some(banks@[k])
            }),
    {
        proof {
            lemma_first_index_found(banks@, golden_is(golden), 0);
        }
        let mut i: usize = 0;
        while i < banks.len()
            invariant
                i <= banks@.len(),
                first_index(banks@, golden_is(golden), 0) == first_index(banks@, golden_is(golden), i as int),
            decreases banks@.len() - i,
        {
            if banks[i].is_golden == golden {
                return Some(banks[i]);
            }
            i = i + 1;
        }
        None
    }

    /// Whether a run takes an image over serial: the update signal asks
    /// for a one-shot serial update, and the boot bank holds an image (with
    /// none, a run has nothing to update and asks for nothing).
    pub fn needs_serial_image(&mut self) -> (r: bool)
        requires
            old(self).ready(),
        ensures
            Self::unchanged(*old(self), *final(self)),
            r == (old(self).update_plan == Some(UpdatePlan::Serial) && scan_finds_image(
                old(self).mcu_flash,
                old(self).spec_boot_bank(),
                old(self).check,
            )),
    {
        let serial = match self.update_plan {
            Some(UpdatePlan::Serial) => true,
            _ => false,
        };
        if !serial {
            return false;
        }
        let boot = self.boot_bank();
        proof {
            lemma_first_index_found(self.mcu_banks@, is_boot_bank(), 0);
            assert(copy_fits(self.mcu_banks@[self.boot_index()], self.spec_boot_bank().location));
        }
        let found = scan_bank(&mut self.mcu_flash, boot, &self.check);
        found.is_ok()
    }

    /// Recovery mode's plan: which image to receive, and into which flash.
    pub fn recover(&self) -> (r: RecoveryStep)
        ensures
            r == recovery_step(*self),
    {
        proof {
            assert(golden_is(true) =~= is_golden_bank());
        }
        let mcu_golden_bank_exists = Self::find_bank(&self.mcu_banks, true).is_some();
        let external_golden_bank_exists = Self::find_bank(&self.external_banks, true).is_some();
        proof {
            lemma_first_index_found(self.mcu_banks@, is_golden_bank(), 0);
            lemma_first_index_found(self.external_banks@, is_golden_bank(), 0);
        }
        if mcu_golden_bank_exists {
            RecoveryStep::Internal { golden: true }
        } else if self.external_flash.is_some() && external_golden_bank_exists {
            RecoveryStep::External { golden: true }
        } else if !external_golden_bank_exists {
            RecoveryStep::Internal { golden: false }
        } else {
            RecoveryStep::Nothing
        }
    }

    /// Writes an image received in recovery mode into MCU flash and checks
    /// that it is a valid image. A golden image goes into the first golden
    /// MCU bank, and must be golden; any other image goes straight into the
    /// bootable bank.
    pub fn recover_internal(&mut self, golden: bool, image: &[u8]) -> (r: Result<(), Error>)
        requires
            old(self).ready(),
        ensures
            Self::settings_kept(*old(self), *final(self)),
            same_optional_flash(final(self).external_flash, old(self).external_flash),
            final(self).boot_metrics == old(self).boot_metrics,
            !old(self).serial_enabled ==> r == Err::<(), Error>(Error::NoRecoverySupport) && Self::unchanged(*old(self), *final(self)),
            ({
                let k = first_index(old(self).mcu_banks@, is_golden_bank(), 0);
                &&& old(self).serial_enabled && golden && k == old(self).mcu_banks@.len() ==> r == Err::<(), Error>(Error::NoGoldenBankSupport)
                    && Self::unchanged(*old(self), *final(self))
                &&& old(self).serial_enabled && golden && k < old(self).mcu_banks@.len() ==> recovery_outcome(
                    r, old(self).mcu_flash, final(self).mcu_flash, old(self).mcu_banks@[k], true, old(self).check, image@)
            }),
            old(self).serial_enabled && !golden ==> recovery_outcome(
                r, old(self).mcu_flash, final(self).mcu_flash, old(self).spec_boot_bank(), false, old(self).check, image@),
    {
        if !self.serial_enabled {
            return Err(Error::NoRecoverySupport);
        }
        if !golden {
            let bank = self.boot_bank();
            proof {
                lemma_first_index_found(self.mcu_banks@, is_boot_bank(), 0);
            }
            assert(copy_fits(self.mcu_banks@[self.boot_index()], self.spec_boot_bank().location));
            return flash_received_image(&mut self.mcu_flash, bank, false, &self.check, image);
        }
        proof {
            lemma_first_index_found(self.mcu_banks@, golden_is(true), 0);
            assert(golden_is(true) =~= is_golden_bank());
        }
        match Self::find_bank(&self.mcu_banks, true) {
            Some(bank) => {
                assert(copy_fits(self.mcu_banks@[first_index(self.mcu_banks@, golden_is(true), 0)], self.spec_boot_bank().location));
                flash_received_image(&mut self.mcu_flash, bank, true, &self.check, image)
            },
            None => Err(Error::NoGoldenBankSupport),
        }
    }

    /// Writes an image received in recovery mode into the first external
    /// bank of the wanted kind, and checks it.
    pub fn recover_external(&mut self, golden: bool, image: &[u8]) -> (r: Result<(), Error>)
        requires
            old(self).ready(),
        ensures
            Self::settings_kept(*old(self), *final(self)),
            same_flash(final(self).mcu_flash, old(self).mcu_flash),
            final(self).external_flash is Some <==> old(self).external_flash is Some,
            final(self).boot_metrics == old(self).boot_metrics,
            !old(self).serial_enabled ==> r == Err::<(), Error>(Error::NoRecoverySupport) && Self::unchanged(*old(self), *final(self)),
            ({
                let k = first_index(old(self).external_banks@, golden_is(golden), 0);
                &&& old(self).serial_enabled && k == old(self).external_banks@.len() ==> r == Err::<(), Error>(Error::NoGoldenBankSupport)
                    && Self::unchanged(*old(self), *final(self))
                &&& old(self).serial_enabled && k < old(self).external_banks@.len() && old(self).external_flash is None
                    ==> r == Err::<(), Error>(Error::NoExternalFlash) && Self::unchanged(*old(self), *final(self))
                &&& old(self).serial_enabled && k < old(self).external_banks@.len() && old(self).external_flash is Some
                    ==> recovery_outcome(r, old(self).external_flash->0, final(self).external_flash->0,
                        old(self).external_banks@[k], golden, old(self).check, image@)
            }),
    {
        if !self.serial_enabled {
            return Err(Error::NoRecoverySupport);
        }
        proof {
            lemma_first_index_found(self.external_banks@, golden_is(golden), 0);
        }
        match Self::find_bank(&self.external_banks, golden) {
            Some(bank) => {
                assert(copy_fits(self.external_banks@[first_index(self.external_banks@, golden_is(golden), 0)], self.spec_boot_bank().location));
                match &mut self.external_flash {
                    Some(ext) => flash_received_image(ext, bank, golden, &self.check, image),
                    None => Err(Error::NoExternalFlash),
                }
            },
            None => Err(Error::NoGoldenBankSupport),
        }
    }

    /// Takes the update plan from the board's update signal: the plan kept
    /// is the one the signal's `read_update_plan` returned.
    pub fn read_update_signal<S: ReadUpdateSignal>(&mut self, signal: &S)
        ensures
            final(self).update_plan is Some,
            call_ensures(S::read_update_plan, (signal,), final(self).update_plan->0),
            final(self).recovery_enabled == old(self).recovery_enabled,
            final(self).serial_enabled == old(self).serial_enabled,
            final(self).greeting == old(self).greeting,
            final(self).mcu_banks@ == old(self).mcu_banks@,
            final(self).external_banks@ == old(self).external_banks@,
            final(self).check == old(self).check,
            final(self).boot_metrics == old(self).boot_metrics,
            same_flash(final(self).mcu_flash, old(self).mcu_flash),
            same_optional_flash(final(self).external_flash, old(self).external_flash),
    {
        self.update_plan = Some(signal.read_update_plan());
    }

    /// Records the boot time in the boot metrics, which the caller stores
    /// for the booted image before jumping to it.
    pub fn boot(&mut self, time_ms: Option<u32>) -> (r: BootMetrics)
        ensures
            Self::settings_kept(*old(self), *final(self)),
            same_flash(final(self).mcu_flash, old(self).mcu_flash),
            same_optional_flash(final(self).external_flash, old(self).external_flash),
            final(self).boot_metrics == (BootMetrics { boot_time_ms: time_ms, ..old(self).boot_metrics }),
            r == final(self).boot_metrics,
            old(self).boot_metrics.spec_is_valid() ==> r.spec_is_valid(),
    {
        self.boot_metrics.boot_time_ms = time_ms;
        self.boot_metrics
    }
}


/// The decision once a restore has given `restored`: boot the restored
/// image, or enter recovery mode if it is enabled, or stop.
pub open spec fn decision_after_restore(restored: Result<Image, Error>, recovery_enabled: bool) -> BootDecision {
    match restored {
        Ok(img) => BootDecision::Boot(img),
        Err(_) => if recovery_enabled { BootDecision::Recover } else { BootDecision::Halt },
    }
}

/// The rest of a run, once looking for the image to boot found `found` and
/// left the bootloader as `mid`: boot what was found, or else restore.
pub open spec fn after_latest<M: ReadWrite, E: ReadWrite>(r: BootDecision, found: Option<Image>, mid: Bootloader<M, E>, b: Bootloader<M, E>) -> bool {
    match found {
        Some(img) => r == BootDecision::Boot(img) && b == mid,
        None => exists|restored: Result<Image, Error>| #[trigger] restore_outcome(restored, mid, b)
            && r == decision_after_restore(restored, mid.recovery_enabled),
    }
}

/// What a run gives: the image to boot if there is one (after any update),
/// else the restored image, else recovery.
pub open spec fn run_outcome<M: ReadWrite, E: ReadWrite>(r: BootDecision, a: Bootloader<M, E>, b: Bootloader<M, E>, serial_image: Seq<u8>) -> bool {
    exists|mid: Bootloader<M, E>, found: Option<Image>| #[trigger] latest_outcome(found, a, mid, serial_image)
        && after_latest(r, found, mid, b)
}

/// A count of banks that satisfy `p` is zero when none does.
proof fn lemma_count_none(s: Seq<Bank>, p: spec_fn(Bank) -> bool)
    requires
        forall|j: int| 0 <= j < s.len() ==> !p(#[trigger] s[j]),
    ensures
        count_banks(s, p) == 0,
    decreases s.len(),
{
    if s.len() > 0 {
        assert forall|j: int| 0 <= j < s.drop_last().len() implies !p(#[trigger] s.drop_last()[j]) by {
            assert(s.drop_last()[j] == s[j]);
        }
        lemma_count_none(s.drop_last(), p);
    }
}

/// A bank fits the address space, and so does a copy of it at `destination`.
fn copy_fits_check(bank: Bank, destination: usize) -> (r: bool)
    ensures
        r == copy_fits(bank, destination),
{
    let limit = usize::MAX as u128;
    let extra = (crate::image::SIGNATURE_LEN + MAGIC_LEN) as u128;
    bank.location as u128 + bank.size as u128 + extra <= limit && destination as u128
        + bank.size as u128 + extra <= limit
}

impl<M: ReadWrite, E: ReadWrite> Bootloader<M, E> {
    /// A layout that passes the sanity checks has a boot bank.
    proof fn lemma_correct_has_boot_bank(self)
        requires
            self.banks_are_correct(),
        ensures
            self.has_boot_bank(),
    {
        lemma_first_index_found(self.mcu_banks@, is_boot_bank(), 0);
        if self.boot_index() == self.mcu_banks@.len() {
            lemma_count_none(self.mcu_banks@, is_boot_bank());
        }
    }

    /// Whether every bank, and its copy into the boot bank, fits the
    /// address space.
    pub fn banks_fit_check(&self) -> (r: bool)
        requires
            self.has_boot_bank(),
        ensures
            r == self.banks_fit(),
    {
        let boot = self.boot_bank();
        let mut i: usize = 0;
        while i < self.mcu_banks.len()
            invariant
                i <= self.mcu_banks@.len(),
                boot == self.spec_boot_bank(),
                forall|k: int| 0 <= k < i ==> copy_fits(#[trigger] self.mcu_banks@[k], boot.location),
            decreases self.mcu_banks@.len() - i,
        {
            if !copy_fits_check(self.mcu_banks[i], boot.location) {
                return false;
            }
            i = i + 1;
        }
        let mut j: usize = 0;
        while j < self.external_banks.len()
            invariant
                j <= self.external_banks@.len(),
                boot == self.spec_boot_bank(),
                forall|k: int| 0 <= k < self.mcu_banks@.len() ==> copy_fits(#[trigger] self.mcu_banks@[k], boot.location),
                forall|k: int| 0 <= k < j ==> copy_fits(#[trigger] self.external_banks@[k], boot.location),
            decreases self.external_banks@.len() - j,
        {
            if !copy_fits_check(self.external_banks[j], boot.location) {
                return false;
            }
            j = j + 1;
        }
        true
    }

    /// Main bootloader routine, up to the point where an image is booted or
    /// recovery mode is entered. After the sanity checks on the bank layout,
    /// the current image is updated if the update signal allows it (see
    /// [`Self::latest_bootable_image`]); if there is then no image to boot,
    /// the boot bank is restored from the other banks, golden images last.
    /// Failing that, recovery mode is entered if it is enabled.
    pub fn run(&mut self, serial_image: &[u8]) -> (r: BootDecision)
        requires
            old(self).banks_are_correct(),
            old(self).banks_fit(),
        ensures
            run_outcome(r, *old(self), *final(self), serial_image@),
            Self::settings_kept(*old(self), *final(self)),
            r matches BootDecision::Boot(img) ==> describes(img, final(self).mcu_flash, old(self).spec_boot_bank(), old(self).check),
            r is Recover ==> old(self).recovery_enabled,
            r is Halt ==> !old(self).recovery_enabled,
            ({
                let boot = old(self).spec_boot_bank();
                let f = old(self).mcu_flash;
                &&& scan_finds_image(f, boot, old(self).check)
                    && old(self).update_plan == Some(UpdatePlan::NoUpdate)
                    ==> (r matches BootDecision::Boot(img) && describes(img, f, boot, old(self).check)
                        && Self::unchanged(*old(self), *final(self)))
                &&& !scan_finds_image(f, boot, old(self).check)
                    && restore_source(*old(self)) is None
                    ==> r == (if old(self).recovery_enabled { BootDecision::Recover } else { BootDecision::Halt })
                        && Self::unchanged(*old(self), *final(self))
            }),
    {
        self.verify_bank_correctness();
        proof {
            self.lemma_correct_has_boot_bank();
        }
        let ghost s0 = *self;
        let found = self.latest_bootable_image(serial_image);
        let ghost s1 = *self;
        if let Some(image) = found {
            assert(latest_outcome(found, s0, s1, serial_image@));
            assert(after_latest(BootDecision::Boot(image), found, s1, *self));
            return BootDecision::Boot(image);
        }
        proof {
            if Self::unchanged(s0, *self) {
                Self::lemma_unchanged_source(s0, *self);
            }
        }
        let restored = self.restore();
        proof {
            if Self::unchanged(s1, *self) && Self::unchanged(s0, s1) {
                Self::lemma_unchanged_trans(s0, s1, *self);
            }
        }
        let decision = match restored {
            Ok(image) => BootDecision::Boot(image),
            Err(_) => {
                if self.recovery_enabled {
                    BootDecision::Recover
                } else {
                    BootDecision::Halt
                }
            },
        };
        assert(restore_outcome(restored, s1, *self));
        assert(after_latest(decision, found, s1, *self));
        assert(latest_outcome(found, s0, s1, serial_image@));
        decision
    }
}


/// No inverted magic string starts between `k` and the first one found
/// from `k`.
proof fn lemma_no_magic_before(a: Seq<u8>, k: int)
    requires
        0 <= k,
    ensures
        forall|j: int| k <= j < crate::image::first_magic_from(a, k) ==> !crate::image::magic_at(a, j),
    decreases a.len() - k,
{
    if k + MAGIC_LEN <= a.len() && !crate::image::magic_at(a, k) {
        lemma_no_magic_before(a, k + 1);
    }
}

/// Two byte strings that agree up to the end of the first inverted magic
/// string of one have it at the same place.
proof fn lemma_first_magic_agree(a: Seq<u8>, b: Seq<u8>, k: int, m: int)
    requires
        0 <= k <= m,
        m + MAGIC_LEN <= a.len(),
        m + MAGIC_LEN <= b.len(),
        crate::image::magic_at(a, m),
        forall|j: int| k <= j < m ==> !crate::image::magic_at(a, j),
        forall|i: int| 0 <= i < m + MAGIC_LEN ==> #[trigger] a[i] == b[i],
    ensures
        crate::image::first_magic_from(b, k) == m,
    decreases m - k,
{
    assert(a.subrange(k, k + MAGIC_LEN) =~= b.subrange(k, k + MAGIC_LEN));
    if k < m {
        assert(!crate::image::magic_at(a, k));
        assert(!crate::image::magic_at(b, k));
        lemma_first_magic_agree(a, b, k + 1, m);
    } else {
        assert(crate::image::magic_at(b, k));
    }
}

/// A valid image copied into another bank big enough for it is found there
/// by a scan, with the same body, golden string, checked message and
/// trailer, as long as the reads the scan makes are permitted.
pub proof fn lemma_copied_image_scans<I: ReadWrite, O: ReadWrite>(
    input: I,
    before: O,
    after: O,
    source: Bank,
    dest: Bank,
    check: ImageCheck,
)
    requires
        scan_finds_image(input, source, check),
        restored(input, before, after, source, dest, check),
        found_total(input, source, check) <= dest.size,
        image_reads_ok(after, dest, check),
    ensures
        scan_finds_image(after, dest, check),
        scanned_size(after, dest) == scanned_size(input, source),
        golden_in(after, dest) == golden_in(input, source),
        checked_message(after, dest) == checked_message(input, source),
        trailer_bytes(after, dest, check) == trailer_bytes(input, source, check),
{
    let total = found_total(input, source, check);
    let a = input.contents().subrange(source.location as int, source.location + source.size);
    let b = after.contents().subrange(dest.location as int, dest.location + dest.size);
    let m = scanned_size(input, source);
    input.lemma_ranges_in_bounds(source.location as int, source.size as int);
    after.lemma_ranges_in_bounds(dest.location as int, dest.size as int);
    input.lemma_ranges_in_bounds(trailer_at(input, source), trailer_len(check));
    input.lemma_ranges_in_bounds(golden_at(input, source), GOLDEN_LEN as int);
    crate::image::lemma_first_magic_bounds(a, 0);
    lemma_no_magic_before(a, 0);
    assert(m + MAGIC_LEN + trailer_len(check) <= total);
    assert forall|i: int| 0 <= i < total implies #[trigger] after.contents()[dest.location + i]
        == input.contents()[source.location + i] by {}
    assert forall|i: int| 0 <= i < m + MAGIC_LEN implies #[trigger] a[i] == b[i] by {
        assert(after.contents()[dest.location + i] == input.contents()[source.location + i]);
    }
    lemma_first_magic_agree(a, b, 0, m);
    assert(scanned_size(after, dest) == m);
    assert(after.contents()[dest.location + 0] == input.contents()[source.location + 0]);
    assert(!starts_erased(after, dest, check));
    assert(after.contents().subrange(dest.location as int, dest.location + m) =~= input.contents().subrange(
        source.location as int,
        source.location + m,
    )) by {
        assert forall|i: int| 0 <= i < m implies #[trigger] after.contents().subrange(dest.location as int, dest.location + m)[i]
            == input.contents().subrange(source.location as int, source.location + m)[i] by {
            assert(after.contents()[dest.location + i] == input.contents()[source.location + i]);
        }
    }
    let t = trailer_len(check);
    assert(trailer_bytes(after, dest, check) =~= trailer_bytes(input, source, check)) by {
        assert forall|i: int| 0 <= i < t implies #[trigger] trailer_bytes(after, dest, check)[i]
            == trailer_bytes(input, source, check)[i] by {
            assert(after.contents()[dest.location + (m + MAGIC_LEN + i)] == input.contents()[source.location + (m + MAGIC_LEN + i)]);
        }
    }
    let g = if m >= GOLDEN_LEN { m - GOLDEN_LEN } else { 0 };
    assert(after.contents().subrange(golden_at(after, dest), golden_at(after, dest) + GOLDEN_LEN) =~= input.contents().subrange(
        golden_at(input, source),
        golden_at(input, source) + GOLDEN_LEN,
    )) by {
        assert forall|i: int| 0 <= i < GOLDEN_LEN implies #[trigger] after.contents().subrange(golden_at(after, dest), golden_at(after, dest) + GOLDEN_LEN)[i]
            == input.contents().subrange(golden_at(input, source), golden_at(input, source) + GOLDEN_LEN)[i] by {
            assert(after.contents()[dest.location + (g + i)] == input.contents()[source.location + (g + i)]);
        }
    }
}


/// Golden banks are never updated from: an update's source is never a
/// golden bank, and never the boot bank itself.
pub proof fn lemma_update_source_not_golden<M: ReadWrite, E: ReadWrite>(s: Bootloader<M, E>, target: Option<u8>)
    ensures
        update_source(s, target) matches Some((_, b)) ==> !b.is_golden,
        update_source(s, target) matches Some((false, b)) ==> b.index != s.spec_boot_bank().index,
{
    let boot = s.spec_boot_bank();
    lemma_first_index_found(s.mcu_banks@, mcu_update_candidate(s.mcu_flash, boot, target, s.check), 0);
    lemma_first_index_found(s.external_banks@, external_update_candidate(s.external_flash->0, target, s.check), 0);
}

/// A restore copies a golden image only when no bank holds a copyable image
/// that is not golden, and never copies the boot bank onto itself.
pub proof fn lemma_golden_restored_last<M: ReadWrite, E: ReadWrite>(s: Bootloader<M, E>)
    ensures
        restore_source(s) matches Some((_, b)) && b.is_golden ==> {
            &&& first_index(s.mcu_banks@, mcu_source(s.mcu_flash, s.spec_boot_bank(), false, s.check), 0) == s.mcu_banks@.len()
            &&& s.external_flash is Some ==> first_index(
                s.external_banks@,
                external_source(s.external_flash->0, s.mcu_flash, s.spec_boot_bank(), false, s.check),
                0,
            ) == s.external_banks@.len()
        },
        restore_source(s) matches Some((false, b)) ==> b.index != s.spec_boot_bank().index,
{
    let boot = s.spec_boot_bank();
    let e = s.external_flash->0;
    lemma_first_index_found(s.mcu_banks@, mcu_source(s.mcu_flash, boot, false, s.check), 0);
    lemma_first_index_found(s.mcu_banks@, mcu_source(s.mcu_flash, boot, true, s.check), 0);
    lemma_first_index_found(s.external_banks@, external_source(e, s.mcu_flash, boot, false, s.check), 0);
    lemma_first_index_found(s.external_banks@, external_source(e, s.mcu_flash, boot, true, s.check), 0);
}

/// Some bank of the list holds a golden image.
pub open spec fn has_golden(banks: Seq<Bank>) -> bool {
    exists|i: int| 0 <= i < banks.len() && (#[trigger] banks[i]).is_golden
}

/// The golden flag of a recovery step (`true` for no step at all).
pub open spec fn step_is_golden(step: RecoveryStep) -> bool {
    match step {
        RecoveryStep::Internal { golden } => golden,
        RecoveryStep::External { golden } => golden,
        RecoveryStep::Nothing => true,
    }
}

/// Where recovery receives an image, in terms of the banks: with a golden
/// MCU bank, a golden image into MCU flash; otherwise, with a golden
/// external bank and an external flash, a golden image into the external
/// flash; with no golden bank at all, a plain image into MCU flash. Whenever
/// some bank is golden, the image received must be golden.
pub proof fn lemma_recovery_targets<M: ReadWrite, E: ReadWrite>(s: Bootloader<M, E>)
    ensures
        has_golden(s.mcu_banks@) ==> recovery_step(s) == (RecoveryStep::Internal { golden: true }),
        !has_golden(s.mcu_banks@) && has_golden(s.external_banks@) && s.external_flash is Some
            ==> recovery_step(s) == (RecoveryStep::External { golden: true }),
        !has_golden(s.mcu_banks@) && !has_golden(s.external_banks@)
            ==> recovery_step(s) == (RecoveryStep::Internal { golden: false }),
        has_golden(s.mcu_banks@) || has_golden(s.external_banks@) ==> step_is_golden(recovery_step(s)),
{
    lemma_first_index_found(s.mcu_banks@, is_golden_bank(), 0);
    lemma_first_index_found(s.external_banks@, is_golden_bank(), 0);
    if has_golden(s.mcu_banks@) {
        let i = choose|i: int| 0 <= i < s.mcu_banks@.len() && (#[trigger] s.mcu_banks@[i]).is_golden;
        assert(is_golden_bank()(s.mcu_banks@[i]));
    }
    if has_golden(s.external_banks@) {
        let j = choose|j: int| 0 <= j < s.external_banks@.len() && (#[trigger] s.external_banks@[j]).is_golden;
        assert(is_golden_bank()(s.external_banks@[j]));
    }
}

/// After a restore, the decision is to boot exactly the restored image,
/// golden or not; only a failed restore leads to recovery (when enabled) or
/// to a stop.
pub proof fn lemma_restored_image_is_booted(restored: Result<Image, Error>, recovery_enabled: bool)
    ensures
        restored matches Ok(img) ==> decision_after_restore(restored, recovery_enabled) == BootDecision::Boot(img),
        restored is Err && recovery_enabled ==> decision_after_restore(restored, recovery_enabled) == BootDecision::Recover,
        restored is Err && !recovery_enabled ==> decision_after_restore(restored, recovery_enabled) == BootDecision::Halt,
{
}

/// A run that found no image to boot directly and whose restore succeeds
/// boots an image: it never enters recovery, or stops, with a restored image
/// in hand.
pub proof fn lemma_run_boots_a_restored_image<M: ReadWrite, E: ReadWrite>(
    r: BootDecision,
    mid: Bootloader<M, E>,
    b: Bootloader<M, E>,
    img: Image,
)
    requires
        after_latest(r, None, mid, b),
        restore_outcome(Ok(img), mid, b),
    ensures
        (r is Boot),
{
    let restored = choose|restored: Result<Image, Error>| #[trigger] restore_outcome(restored, mid, b)
        && r == decision_after_restore(restored, mid.recovery_enabled);
    if restored is Err {
        assert(restore_source(mid) is Some);
        assert(false);
    }
}

} // verus!
