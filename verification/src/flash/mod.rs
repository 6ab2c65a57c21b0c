//! Flash memory abstractions.
//!
//! Two layers are described here. [`ReadWrite`] is what the bootloader and
//! the boot manager see: a byte addressable memory that can be read and
//! written. [`NorCells`] is what flash drivers sit on: raw NOR cells, where
//! programming can only clear bits and erasing sets a whole region to `0xFF`.
//! The drivers in [`mcu`] and [`micron`] turn the second into the first, and
//! their contracts state what a read gives back after a write.

use vstd::prelude::*;
use crate::error::Error;

pub mod mcu;
pub mod micron;

verus! {

/// `s` with `data` written over it starting at `at`.
pub open spec fn splice(s: Seq<u8>, at: int, data: Seq<u8>) -> Seq<u8> {
    Seq::new(s.len(), |i: int| if at <= i < at + data.len() { data[i - at] } else { s[i] })
}

/// `s` after NOR programming `data` at `at`: every byte can only lose bits.
pub open spec fn program_range(s: Seq<u8>, at: int, data: Seq<u8>) -> Seq<u8> {
    Seq::new(s.len(), |i: int| if at <= i < at + data.len() { s[i] & data[i - at] } else { s[i] })
}

/// `s` after erasing `len` bytes starting at `at`.
pub open spec fn erase_range(s: Seq<u8>, at: int, len: int) -> Seq<u8> {
    Seq::new(s.len(), |i: int| if at <= i < at + len { 0xFFu8 } else { s[i] })
}

/// Every bit set in `data` is also set in the matching byte of `on`, so
/// programming `data` over `on` yields exactly `data`.
pub open spec fn bits_subset(data: Seq<u8>, on: Seq<u8>) -> bool {
    &&& data.len() <= on.len()
    &&& forall|i: int| 0 <= i < data.len() ==> #[trigger] (data[i] & on[i]) == data[i]
}

/// Whether `data` is a bitwise subset of the start of `on`, so that `data`
/// can be programmed over `on` without erasing first.
pub fn is_subset_of(data: &[u8], on: &[u8]) -> (r: bool)
    ensures
        r == bits_subset(data@, on@),
{
    if data.len() > on.len() {
        return false;
    }
    let mut i: usize = 0;
    while i < data.len()
        invariant
            i <= data.len() <= on.len(),
            forall|k: int| 0 <= k < i ==> #[trigger] (data@[k] & on@[k]) == data@[k],
        decreases data.len() - i,
    {
        if data[i] & on[i] != data[i] {
            return false;
        }
        i = i + 1;
    }
    true
}

/// Programming a bitwise subset over a region gives back the data itself.
pub proof fn lemma_program_subset(s: Seq<u8>, at: int, data: Seq<u8>)
    requires
        0 <= at,
        at + data.len() <= s.len(),
        bits_subset(data, s.subrange(at, at + data.len() as int)),
    ensures
        program_range(s, at, data) == splice(s, at, data),
{
    assert forall|i: int| 0 <= i < s.len() implies #[trigger] program_range(s, at, data)[i]
        == splice(s, at, data)[i] by {
        if at <= i < at + data.len() {
            let k = i - at;
            assert(s.subrange(at, at + data.len() as int)[k] == s[i]);
            assert((data[k] & s[i]) == data[k]);
            let a = s[i];
            let b = data[k];
            assert((b & a) == b ==> (a & b) == b) by (bit_vector);
        }
    }
    assert(program_range(s, at, data) =~= splice(s, at, data));
}

/// Programming anything over erased cells gives back the data itself.
pub proof fn lemma_program_erased(s: Seq<u8>, at: int, data: Seq<u8>)
    requires
        0 <= at,
        at + data.len() <= s.len(),
        forall|i: int| at <= i < at + data.len() ==> s[i] == 0xFFu8,
    ensures
        program_range(s, at, data) == splice(s, at, data),
{
    assert forall|i: int| 0 <= i < s.len() implies #[trigger] program_range(s, at, data)[i]
        == splice(s, at, data)[i] by {
        if at <= i < at + data.len() {
            let b = data[i - at];
            assert((0xFFu8 & b) == b) by (bit_vector);
        }
    }
    assert(program_range(s, at, data) =~= splice(s, at, data));
}

/// A byte addressable memory that can be read and written, such as a flash
/// chip behind its driver. Addresses index [`ReadWrite::contents`] directly.
///
/// Which ranges can be read or written is a fixed property of the device
/// (its geometry and alignment rules); reads and writes never change it.
pub trait ReadWrite {
    /// Current contents, indexed by address.
    spec fn contents(&self) -> Seq<u8>;

    /// Whether `len` bytes starting at `address` can be read.
    spec fn readable(&self, address: int, len: int) -> bool;

    /// Whether `len` bytes starting at `address` can be written.
    spec fn writable(&self, address: int, len: int) -> bool;

    /// Number of bytes right after a written range whose contents a write
    /// may alter (devices that program whole words may pad the last one).
    spec fn spill(&self) -> nat;

    /// Readable and writable ranges lie within the contents.
    proof fn lemma_ranges_in_bounds(&self, address: int, len: int)
        ensures
            self.readable(address, len) ==> 0 <= address && 0 <= len && address + len
                <= self.contents().len(),
            self.writable(address, len) ==> 0 <= address && 0 <= len && address + len
                <= self.contents().len(),
    ;

    /// Reads `len` bytes starting at `address`.
    fn read(&mut self, address: usize, len: usize) -> (r: Result<Vec<u8>, Error>)
        ensures
            final(self).contents() == old(self).contents(),
            final(self).spill() == old(self).spill(),
            forall|a: int, l: int| #[trigger] final(self).readable(a, l) == old(self).readable(a, l),
            forall|a: int, l: int| #[trigger] final(self).writable(a, l) == old(self).writable(a, l),
            r is Ok <==> old(self).readable(address as int, len as int),
            r matches Ok(v) ==> v@ == old(self).contents().subrange(
                address as int,
                address + len,
            ),
    ;

    /// Writes `bytes` starting at `address`. On success the written range
    /// reads back as `bytes`, and nothing outside it and its spill changes.
    /// On failure nothing changes.
    fn write(&mut self, address: usize, bytes: &[u8]) -> (r: Result<(), Error>)
        ensures
            final(self).spill() == old(self).spill(),
            forall|a: int, l: int| #[trigger] final(self).readable(a, l) == old(self).readable(a, l),
            forall|a: int, l: int| #[trigger] final(self).writable(a, l) == old(self).writable(a, l),
            final(self).contents().len() == old(self).contents().len(),
            r is Ok <==> old(self).writable(address as int, bytes@.len() as int),
            r is Ok ==> forall|i: int|
                address <= i < address + bytes@.len() ==> #[trigger] final(self).contents()[i]
                    == bytes@[i - address],
            r is Ok ==> forall|i: int|
                0 <= i < old(self).contents().len() && !(address <= i < address + bytes@.len()
                    + old(self).spill()) ==> #[trigger] final(self).contents()[i]
                    == old(self).contents()[i],
            r is Err ==> final(self).contents() == old(self).contents(),
    ;
}

/// A memory that can be erased as a whole.
pub trait BulkErase {
    /// Current contents, indexed by address.
    spec fn erasable_contents(&self) -> Seq<u8>;

    /// The memory is in a state in which a bulk erase goes through.
    spec fn erasable(&self) -> bool;

    /// Erases every cell; on success every byte reads `0xFF`. Succeeds
    /// exactly when the memory is erasable.
    fn erase(&mut self) -> (r: Result<(), Error>)
        ensures
            r is Ok <==> old(self).erasable(),
            final(self).erasable_contents().len() == old(self).erasable_contents().len(),
            r is Ok ==> forall|i: int|
                0 <= i < final(self).erasable_contents().len()
                    ==> #[trigger] final(self).erasable_contents()[i] == 0xFFu8,
            r is Err ==> final(self).erasable_contents() == old(self).erasable_contents(),
    ;
}

/// A command a NOR flash device receives.
pub enum NorCommand {
    /// Read the status register (whether an operation is in progress).
    ReadStatus,
    /// Allow the next erase or program.
    WriteEnable,
    /// Forbid erasing and programming.
    WriteDisable,
    /// Read `len` cells from an address.
    Read(int, int),
    /// Erase `len` cells from an address.
    Erase(int, int),
    /// Program data into the cells from an address.
    Program(int, Seq<u8>),
    /// Read the manufacturer identifier.
    ReadId,
}

/// Raw NOR flash cells, the hardware below a flash driver. Programming can
/// only clear bits; erasing sets bytes back to `0xFF`. Every operation is a
/// command the device receives, and the device keeps a log of them.
pub trait NorCells {
    /// Current cell values, indexed by address.
    spec fn cells(&self) -> Seq<u8>;

    /// Lowest address that holds a cell.
    spec fn base(&self) -> nat;

    /// The commands the device received so far, in order.
    spec fn commands(&self) -> Seq<NorCommand>;

    /// The controller reports an operation in progress: a driver asked to
    /// write yields instead.
    spec fn busy(&self) -> bool;

    /// The manufacturer identifier the device answers a read-id command
    /// with.
    spec fn id(&self) -> u8;

    /// Reads the manufacturer identifier.
    fn read_id(&mut self) -> (r: u8)
        ensures
            r == old(self).id(),
            final(self).cells() == old(self).cells(),
            final(self).base() == old(self).base(),
            final(self).busy() == old(self).busy(),
            final(self).commands() == old(self).commands().push(NorCommand::ReadId),
    ;

    /// Reads the controller's status: whether an operation is in progress.
    fn write_in_progress(&mut self) -> (r: bool)
        ensures
            r == old(self).busy(),
            final(self).cells() == old(self).cells(),
            final(self).base() == old(self).base(),
            final(self).busy() == old(self).busy(),
            final(self).commands() == old(self).commands().push(NorCommand::ReadStatus),
    ;

    /// Allows the next erase or program.
    fn write_enable(&mut self)
        ensures
            final(self).cells() == old(self).cells(),
            final(self).base() == old(self).base(),
            final(self).busy() == old(self).busy(),
            final(self).commands() == old(self).commands().push(NorCommand::WriteEnable),
    ;

    /// Forbids erasing and programming.
    fn write_disable(&mut self)
        ensures
            final(self).cells() == old(self).cells(),
            final(self).base() == old(self).base(),
            final(self).busy() == old(self).busy(),
            final(self).commands() == old(self).commands().push(NorCommand::WriteDisable),
    ;

    /// Lowest address that holds a cell, and the address right after the
    /// last cell.
    fn extent(&self) -> (r: (usize, usize))
        ensures
            r.0 == self.base(),
            r.1 == self.cells().len(),
    ;

    /// Reads `len` cells starting at `address`.
    fn read_cells(&mut self, address: usize, len: usize) -> (r: Vec<u8>)
        requires
            old(self).base() <= address,
            address + len <= old(self).cells().len(),
        ensures
            final(self).cells() == old(self).cells(),
            final(self).base() == old(self).base(),
            final(self).commands() == old(self).commands().push(NorCommand::Read(address as int, len as int)),
            final(self).busy() == old(self).busy(),
            r@ == old(self).cells().subrange(address as int, address + len),
    ;

    /// Erases `len` cells starting at `address`.
    fn erase_cells(&mut self, address: usize, len: usize)
        requires
            old(self).base() <= address,
            address + len <= old(self).cells().len(),
        ensures
            final(self).base() == old(self).base(),
            final(self).cells() == erase_range(old(self).cells(), address as int, len as int),
            final(self).commands() == old(self).commands().push(NorCommand::Erase(address as int, len as int)),
            final(self).busy() == old(self).busy(),
    ;

    /// Programs `data` into the cells starting at `address`.
    fn program_cells(&mut self, address: usize, data: &[u8])
        requires
            old(self).base() <= address,
            address + data@.len() <= old(self).cells().len(),
        ensures
            final(self).base() == old(self).base(),
            final(self).cells() == program_range(old(self).cells(), address as int, data@),
            final(self).commands() == old(self).commands().push(NorCommand::Program(address as int, data@)),
            final(self).busy() == old(self).busy(),
    ;
}

/// Cells at or above `start` held in RAM; the cells below `start` do not
/// exist and read as erased in the model. A memory whose end would not fit
/// in the address space holds no cells.
pub open spec fn ram_view(start: nat, memory: Seq<u8>) -> Seq<u8> {
    if start + memory.len() <= usize::MAX {
        Seq::new(start + memory.len(), |i: int| if i < start { 0xFFu8 } else { memory[i - start] })
    } else {
        Seq::empty()
    }
}

/// NOR cells simulated in RAM, starting at a given address.
pub struct RamNor {
    pub start: usize,
    pub memory: Vec<u8>,
    pub log: Ghost<Seq<NorCommand>>,
    /// The controller reports an operation in progress.
    pub busy: bool,
    /// The manufacturer identifier the device answers with.
    pub id: u8,
}

impl RamNor {
    /// Erased cells covering `[start, start + len)`, on a device that
    /// answers a read-id command with `id`.
    pub fn new(start: usize, len: usize, id: u8) -> (r: Self)
        requires
            start + len <= usize::MAX,
        ensures
            r.start == start,
            r.memory@.len() == len,
            forall|i: int| 0 <= i < len ==> #[trigger] r.memory@[i] == 0xFFu8,
            r.commands() == Seq::<NorCommand>::empty(),
            !r.busy,
            r.id == id,
    {
        let mut memory: Vec<u8> = Vec::new();
        let mut i: usize = 0;
        while i < len
            invariant
                i <= len,
                memory@.len() == i,
                forall|k: int| 0 <= k < i ==> #[trigger] memory@[k] == 0xFFu8,
            decreases len - i,
        {
            memory.push(0xFF);
            i = i + 1;
        }
        RamNor { start, memory, log: Ghost(Seq::empty()), busy: false, id }
    }
}

impl NorCells for RamNor {
    open spec fn cells(&self) -> Seq<u8> {
        ram_view(self.start as nat, self.memory@)
    }

    open spec fn base(&self) -> nat {
        self.start as nat
    }

    open spec fn commands(&self) -> Seq<NorCommand> {
        self.log@
    }

    open spec fn busy(&self) -> bool {
        self.busy
    }

    open spec fn id(&self) -> u8 {
        self.id
    }

    fn read_id(&mut self) -> (r: u8) {
        proof {
            self.log@ = self.log@.push(NorCommand::ReadId);
        }
        self.id
    }

    fn write_in_progress(&mut self) -> (r: bool) {
        proof {
            self.log@ = self.log@.push(NorCommand::ReadStatus);
        }
        self.busy
    }

    fn write_enable(&mut self) {
        proof {
            self.log@ = self.log@.push(NorCommand::WriteEnable);
        }
    }

    fn write_disable(&mut self) {
        proof {
            self.log@ = self.log@.push(NorCommand::WriteDisable);
        }
    }

    fn extent(&self) -> (r: (usize, usize)) {
        if self.memory.len() <= usize::MAX - self.start {
            (self.start, self.start + self.memory.len())
        } else {
            (self.start, 0)
        }
    }

    fn read_cells(&mut self, address: usize, len: usize) -> (r: Vec<u8>) {
        proof {
            self.log@ = self.log@.push(NorCommand::Read(address as int, len as int));
        }
        let mut out: Vec<u8> = Vec::new();
        let n = self.memory.len();
        let mut i: usize = 0;
        while i < len
            invariant
                i <= len,
                n == self.memory@.len(),
                self.start <= address,
                len > 0 ==> self.start + self.memory@.len() <= usize::MAX,
                self.start <= address,
                address + len <= self.start + self.memory@.len(),
                out@ == ram_view(self.start as nat, self.memory@).subrange(
                    address as int,
                    address + i,
                ),
            decreases len - i,
        {
            out.push(self.memory[(address - self.start) + i]);
            i = i + 1;
            assert(out@ =~= ram_view(self.start as nat, self.memory@).subrange(
                address as int,
                address + i,
            ));
        }
        out
    }

    fn erase_cells(&mut self, address: usize, len: usize) {
        let ghost old_cells = self.cells();
        let ghost old_start = self.start;
        proof {
            self.log@ = self.log@.push(NorCommand::Erase(address as int, len as int));
        }
        let ghost log = self.log@;
        let n = self.memory.len();
        let mut i: usize = 0;
        while i < len
            invariant
                i <= len,
                self.start == old_start,
                self.log@ == log,
                self.busy == old(self).busy,
                n == self.memory@.len(),
                self.start <= address,
                len > 0 ==> self.start + self.memory@.len() <= usize::MAX,
                address + len <= self.start + self.memory@.len(),
                self.start + self.memory@.len() == old_cells.len(),
                ram_view(self.start as nat, self.memory@) == erase_range(
                    old_cells,
                    address as int,
                    i as int,
                ),
            decreases len - i,
        {
            let idx = (address - self.start) + i;
            let ghost prev = self.memory@;
            self.memory.set(idx, 0xFF);
            i = i + 1;
            assert forall|j: int| 0 <= j < old_cells.len() implies #[trigger] ram_view(
                self.start as nat,
                self.memory@,
            )[j] == erase_range(old_cells, address as int, i as int)[j] by {
                assert(ram_view(self.start as nat, prev)[j] == erase_range(
                    old_cells,
                    address as int,
                    i - 1,
                )[j]);
            }
            assert(ram_view(self.start as nat, self.memory@) =~= erase_range(
                old_cells,
                address as int,
                i as int,
            ));
        }
    }

    fn program_cells(&mut self, address: usize, data: &[u8]) {
        let ghost old_cells = self.cells();
        let ghost old_start = self.start;
        proof {
            self.log@ = self.log@.push(NorCommand::Program(address as int, data@));
        }
        let ghost log = self.log@;
        let n = self.memory.len();
        let mut i: usize = 0;
        while i < data.len()
            invariant
                i <= data@.len(),
                self.start == old_start,
                self.log@ == log,
                self.busy == old(self).busy,
                n == self.memory@.len(),
                self.start <= address,
                data@.len() > 0 ==> self.start + self.memory@.len() <= usize::MAX,
                address + data@.len() <= self.start + self.memory@.len(),
                self.start + self.memory@.len() == old_cells.len(),
                ram_view(self.start as nat, self.memory@) == program_range(
                    old_cells,
                    address as int,
                    data@.subrange(0, i as int),
                ),
            decreases data@.len() - i,
        {
            let idx = (address - self.start) + i;
            let ghost prev = self.memory@;
            let cur = self.memory[idx];
            self.memory.set(idx, cur & data[i]);
            i = i + 1;
            assert forall|j: int| 0 <= j < old_cells.len() implies #[trigger] ram_view(
                self.start as nat,
                self.memory@,
            )[j] == program_range(old_cells, address as int, data@.subrange(0, i as int))[j] by {
                assert(ram_view(self.start as nat, prev)[j] == program_range(
                    old_cells,
                    address as int,
                    data@.subrange(0, i - 1),
                )[j]);
            }
            assert(ram_view(self.start as nat, self.memory@) =~= program_range(
                old_cells,
                address as int,
                data@.subrange(0, i as int),
            ));
        }
        assert(data@.subrange(0, data@.len() as int) =~= data@);
    }
}

/// A plain memory held in RAM, starting at a given address, where writes
/// simply replace bytes. Useful as a stand-in for a flash chip.
pub struct RamFlash {
    start: usize,
    memory: Vec<u8>,
}

impl RamFlash {
    /// A memory of `len` erased (`0xFF`) bytes starting at `start`.
    pub fn new(start: usize, len: usize) -> (r: Self)
        requires
            start + len <= usize::MAX,
        ensures
            r.contents().len() == start + len,
            forall|i: int| start <= i < start + len ==> #[trigger] r.contents()[i] == 0xFFu8,
            forall|a: int, l: int| #[trigger] r.readable(a, l) <==> start <= a && 0 <= l && a + l <= start + len,
    {
        let nor = RamNor::new(start, len, 0);
        RamFlash { start, memory: nor.memory }
    }
}

impl ReadWrite for RamFlash {
    closed spec fn contents(&self) -> Seq<u8> {
        ram_view(self.start as nat, self.memory@)
    }

    closed spec fn readable(&self, address: int, len: int) -> bool {
        self.start <= address && 0 <= len && address + len <= self.start + self.memory@.len()
            && self.start + self.memory@.len() <= usize::MAX
    }

    closed spec fn writable(&self, address: int, len: int) -> bool {
        self.readable(address, len)
    }

    closed spec fn spill(&self) -> nat {
        0
    }

    proof fn lemma_ranges_in_bounds(&self, address: int, len: int) {
    }

    fn read(&mut self, address: usize, len: usize) -> (r: Result<Vec<u8>, Error>) {
        let n = self.memory.len();
        if n > usize::MAX - self.start || address < self.start || len > n
            || address - self.start > n - len {
            return Err(Error::DeviceError("Access outside of RAM flash"));
        }
        let mut out: Vec<u8> = Vec::new();
        let mut i: usize = 0;
        while i < len
            invariant
                i <= len,
                n == self.memory@.len(),
                self.start + n <= usize::MAX,
                self.start <= address,
                address + len <= self.start + n,
                out@ == ram_view(self.start as nat, self.memory@).subrange(address as int, address + i),
            decreases len - i,
        {
            out.push(self.memory[(address - self.start) + i]);
            i = i + 1;
            assert(out@ =~= ram_view(self.start as nat, self.memory@).subrange(address as int, address + i));
        }
        Ok(out)
    }

    fn write(&mut self, address: usize, bytes: &[u8]) -> (r: Result<(), Error>) {
        let n = self.memory.len();
        let len = bytes.len();
        if n > usize::MAX - self.start || address < self.start || len > n
            || address - self.start > n - len {
            return Err(Error::DeviceError("Access outside of RAM flash"));
        }
        let ghost old_view = self.contents();
        let ghost old_start = self.start;
        let mut i: usize = 0;
        while i < len
            invariant
                i <= len,
                len == bytes@.len(),
                self.start == old_start,
                n == self.memory@.len(),
                self.start + n <= usize::MAX,
                self.start <= address,
                address + len <= self.start + n,
                old_view.len() == self.start + n,
                ram_view(self.start as nat, self.memory@) == splice(old_view, address as int, bytes@.subrange(0, i as int)),
            decreases len - i,
        {
            let idx = (address - self.start) + i;
            let ghost prev = self.memory@;
            self.memory.set(idx, bytes[i]);
            i = i + 1;
            assert forall|j: int| 0 <= j < old_view.len() implies #[trigger] ram_view(
                self.start as nat,
                self.memory@,
            )[j] == splice(old_view, address as int, bytes@.subrange(0, i as int))[j] by {
                assert(ram_view(self.start as nat, prev)[j] == splice(
                    old_view,
                    address as int,
                    bytes@.subrange(0, i - 1),
                )[j]);
            }
            assert(ram_view(self.start as nat, self.memory@) =~= splice(old_view, address as int, bytes@.subrange(0, i as int)));
        }
        assert(bytes@.subrange(0, len as int) =~= bytes@);
        Ok(())
    }
}

impl BulkErase for RamFlash {
    closed spec fn erasable_contents(&self) -> Seq<u8> {
        ram_view(self.start as nat, self.memory@)
    }

    /// RAM can always be erased.
    open spec fn erasable(&self) -> bool {
        true
    }

    fn erase(&mut self) -> (r: Result<(), Error>) {
        let n = self.memory.len();
        if n > usize::MAX - self.start {
            return Ok(());
        }
        let ghost old_start = self.start;
        let mut i: usize = 0;
        while i < n
            invariant
                i <= n,
                self.start == old_start,
                n == self.memory@.len(),
                self.start + n <= usize::MAX,
                forall|k: int| 0 <= k < i ==> #[trigger] self.memory@[k] == 0xFFu8,
            decreases n - i,
        {
            self.memory.set(i, 0xFF);
            i = i + 1;
        }
        Ok(())
    }
}

} // verus!
