//! Micron N25Q128A external flash: its memory map (sectors, subsectors and
//! pages), and a driver that turns the chip's NOR cells into a
//! [`ReadWrite`] memory, erasing at subsector granularity and programming
//! page by page.

use vstd::prelude::*;
use crate::error::Error as BootError;
use super::{
    bits_subset, erase_range, is_subset_of, lemma_program_erased, lemma_program_subset,
    program_range, splice, BulkErase, NorCells, NorCommand, ReadWrite,
};

verus! {

/// Manufacturer identifier the chip answers with to a read-id command.
pub const MANUFACTURER_ID: u8 = 0x20;

pub const PAGE_SIZE: usize = 256;
pub const PAGES_PER_SUBSECTOR: usize = 16;
pub const SUBSECTORS_PER_SECTOR: usize = 16;
pub const PAGES_PER_SECTOR: usize = 256;
pub const SUBSECTOR_SIZE: usize = 4096;
pub const SECTOR_SIZE: usize = 65536;
pub const NUMBER_OF_SECTORS: usize = 256;
pub const NUMBER_OF_SUBSECTORS: usize = 4096;
pub const NUMBER_OF_PAGES: usize = 65536;
pub const MEMORY_SIZE: usize = 16777216;

/// Address into the chip's memory map.
#[derive(Default, Copy, Clone, Debug, PartialEq, Eq, PartialOrd, Ord)]
pub struct Address(pub u32);

/// The whole memory of the chip.
pub struct MemoryMap {}

/// A sector: 16 subsectors.
#[derive(Copy, Clone, Debug, PartialEq, Eq)]
pub struct Sector(pub usize);

/// A subsector: the smallest erasable region, 16 pages.
#[derive(Copy, Clone, Debug, PartialEq, Eq)]
pub struct Subsector(pub usize);

/// A page: the largest region programmable in one command.
#[derive(Copy, Clone, Debug, PartialEq, Eq)]
pub struct Page(pub usize);

/// Errors of the external flash driver.
#[derive(Clone, Copy, Debug, PartialEq, Eq)]
pub enum Error {
    TimeOut,
    QspiError,
    WrongManufacturerId,
    MisalignedAccess,
    AddressOutOfRange,
    /// A write is still in progress on the chip; try again.
    WouldBlock,
}

impl Address {
    /// The address `rhs` bytes further.
    pub fn offset(self, rhs: usize) -> (r: Address)
        requires
            self.0 + rhs <= u32::MAX,
        ensures
            r.0 == self.0 + rhs,
    {
        Address(self.0 + rhs as u32)
    }

    /// The address `rhs` bytes before, or zero.
    pub fn back(self, rhs: usize) -> (r: Address)
        ensures
            r.0 == if self.0 >= rhs { self.0 - rhs } else { 0 },
    {
        if rhs as u64 >= self.0 as u64 {
            Address(0)
        } else {
            Address(self.0 - rhs as u32)
        }
    }

    /// Bytes from `rhs` up to this address, or zero when `rhs` is further.
    pub fn distance_from(self, rhs: Address) -> (r: usize)
        ensures
            r == if self.0 >= rhs.0 { self.0 - rhs.0 } else { 0 },
    {
        if self.0 >= rhs.0 {
            (self.0 - rhs.0) as usize
        } else {
            0
        }
    }

    /// The address as a plain number.
    pub fn into_usize(self) -> (r: usize)
        ensures
            r == self.0,
    {
        self.0 as usize
    }
}

impl MemoryMap {
    /// Every sector of the chip, in address order.
    pub fn sectors() -> (r: Vec<Sector>)
        ensures
            r@.len() == NUMBER_OF_SECTORS,
            forall|i: int| 0 <= i < NUMBER_OF_SECTORS ==> #[trigger] r@[i] == Sector(i as usize),
    {
        let mut r: Vec<Sector> = Vec::new();
        let mut i: usize = 0;
        while i < NUMBER_OF_SECTORS
            invariant
                i <= NUMBER_OF_SECTORS,
                r@.len() == i,
                forall|k: int| 0 <= k < i ==> #[trigger] r@[k] == Sector(k as usize),
            decreases NUMBER_OF_SECTORS - i,
        {
            r.push(Sector(i));
            i = i + 1;
        }
        r
    }

    /// Every subsector of the chip, in address order.
    pub fn subsectors() -> (r: Vec<Subsector>)
        ensures
            r@.len() == NUMBER_OF_SUBSECTORS,
            forall|i: int| 0 <= i < NUMBER_OF_SUBSECTORS ==> #[trigger] r@[i] == Subsector(i as usize),
    {
        subsector_range(0, NUMBER_OF_SUBSECTORS)
    }

    /// Every page of the chip, in address order.
    pub fn pages() -> (r: Vec<Page>)
        ensures
            r@.len() == NUMBER_OF_PAGES,
            forall|i: int| 0 <= i < NUMBER_OF_PAGES ==> #[trigger] r@[i] == Page(i as usize),
    {
        page_range(0, NUMBER_OF_PAGES)
    }

    /// First address of the chip.
    pub fn location() -> (r: Address)
        ensures
            r.0 == 0,
    {
        Address(0)
    }

    /// Address right after the end of the chip.
    pub fn end() -> (r: Address)
        ensures
            r.0 == MEMORY_SIZE,
    {
        Address(MEMORY_SIZE as u32)
    }

    /// Size of the chip in bytes.
    pub fn size() -> (r: usize)
        ensures
            r == MEMORY_SIZE,
    {
        MEMORY_SIZE
    }

    /// Whether the address lies in the chip.
    pub fn contains(&self, address: Address) -> (r: bool)
        ensures
            r == (address.0 < MEMORY_SIZE),
    {
        address.0 < MEMORY_SIZE as u32
    }
}

/// Subsectors with indices in `[from, to)`.
fn subsector_range(from: usize, to: usize) -> (r: Vec<Subsector>)
    requires
        from <= to,
    ensures
        r@.len() == to - from,
        forall|i: int| 0 <= i < to - from ==> #[trigger] r@[i] == Subsector((from + i) as usize),
{
    let mut r: Vec<Subsector> = Vec::new();
    let mut i: usize = from;
    while i < to
        invariant
            from <= i <= to,
            r@.len() == i - from,
            forall|k: int| 0 <= k < i - from ==> #[trigger] r@[k] == Subsector((from + k) as usize),
        decreases to - i,
    {
        r.push(Subsector(i));
        i = i + 1;
    }
    r
}

/// Pages with indices in `[from, to)`.
fn page_range(from: usize, to: usize) -> (r: Vec<Page>)
    requires
        from <= to,
    ensures
        r@.len() == to - from,
        forall|i: int| 0 <= i < to - from ==> #[trigger] r@[i] == Page((from + i) as usize),
{
    let mut r: Vec<Page> = Vec::new();
    let mut i: usize = from;
    while i < to
        invariant
            from <= i <= to,
            r@.len() == i - from,
            forall|k: int| 0 <= k < i - from ==> #[trigger] r@[k] == Page((from + k) as usize),
        decreases to - i,
    {
        r.push(Page(i));
        i = i + 1;
    }
    r
}

impl Sector {
    /// The sector's subsectors, in address order.
    pub fn subsectors(&self) -> (r: Vec<Subsector>)
        requires
            self.0 < NUMBER_OF_SECTORS,
        ensures
            r@.len() == SUBSECTORS_PER_SECTOR,
            forall|i: int|
                0 <= i < SUBSECTORS_PER_SECTOR ==> #[trigger] r@[i] == Subsector(
                    (self.0 * SUBSECTORS_PER_SECTOR + i) as usize,
                ),
    {
        subsector_range(self.0 * SUBSECTORS_PER_SECTOR, (1 + self.0) * SUBSECTORS_PER_SECTOR)
    }

    /// The sector's pages, in address order.
    pub fn pages(&self) -> (r: Vec<Page>)
        requires
            self.0 < NUMBER_OF_SECTORS,
        ensures
            r@.len() == PAGES_PER_SECTOR,
            forall|i: int|
                0 <= i < PAGES_PER_SECTOR ==> #[trigger] r@[i] == Page(
                    (self.0 * PAGES_PER_SECTOR + i) as usize,
                ),
    {
        page_range(self.0 * PAGES_PER_SECTOR, (1 + self.0) * PAGES_PER_SECTOR)
    }

    /// First address of the sector.
    pub fn location(&self) -> (r: Address)
        requires
            self.0 < NUMBER_OF_SECTORS,
        ensures
            r.0 == self.0 * SECTOR_SIZE,
    {
        Address((self.0 * SECTOR_SIZE) as u32)
    }

    /// Address right after the sector.
    pub fn end(&self) -> (r: Address)
        requires
            self.0 < NUMBER_OF_SECTORS,
        ensures
            r.0 == (self.0 + 1) * SECTOR_SIZE,
    {
        Address(((self.0 + 1) * SECTOR_SIZE) as u32)
    }

    /// The sector containing the address, if the address is in the chip.
    pub fn at(address: Address) -> (r: Option<Self>)
        ensures
            address.0 < MEMORY_SIZE ==> r == Some(Sector((address.0 as int / SECTOR_SIZE as int) as usize)),
            address.0 >= MEMORY_SIZE ==> r is None,
    {
        if address.0 < MEMORY_SIZE as u32 {
            Some(Sector(address.0 as usize / SECTOR_SIZE))
        } else {
            None
        }
    }

    /// Size of a sector in bytes.
    pub fn size() -> (r: usize)
        ensures
            r == SECTOR_SIZE,
    {
        SECTOR_SIZE
    }

    /// Whether the address lies in the sector.
    pub fn contains(&self, address: Address) -> (r: bool)
        requires
            self.0 < NUMBER_OF_SECTORS,
        ensures
            r == (self.0 * SECTOR_SIZE <= address.0 < (self.0 + 1) * SECTOR_SIZE),
    {
        let start = self.0 * SECTOR_SIZE;
        start <= address.0 as usize && (address.0 as usize) < start + SECTOR_SIZE
    }
}

impl Subsector {
    /// The subsector's pages, in address order.
    pub fn pages(&self) -> (r: Vec<Page>)
        requires
            self.0 < NUMBER_OF_SUBSECTORS,
        ensures
            r@.len() == PAGES_PER_SUBSECTOR,
            forall|i: int|
                0 <= i < PAGES_PER_SUBSECTOR ==> #[trigger] r@[i] == Page(
                    (self.0 * PAGES_PER_SUBSECTOR + i) as usize,
                ),
    {
        page_range(self.0 * PAGES_PER_SUBSECTOR, (1 + self.0) * PAGES_PER_SUBSECTOR)
    }

    /// First address of the subsector.
    pub fn location(&self) -> (r: Address)
        requires
            self.0 < NUMBER_OF_SUBSECTORS,
        ensures
            r.0 == self.0 * SUBSECTOR_SIZE,
    {
        Address((self.0 * SUBSECTOR_SIZE) as u32)
    }

    /// Address right after the subsector.
    pub fn end(&self) -> (r: Address)
        requires
            self.0 < NUMBER_OF_SUBSECTORS,
        ensures
            r.0 == (self.0 + 1) * SUBSECTOR_SIZE,
    {
        Address(((self.0 + 1) * SUBSECTOR_SIZE) as u32)
    }

    /// The subsector containing the address, if the address is in the chip.
    pub fn at(address: Address) -> (r: Option<Self>)
        ensures
            address.0 < MEMORY_SIZE ==> r == Some(
                Subsector((address.0 as int / SUBSECTOR_SIZE as int) as usize),
            ),
            address.0 >= MEMORY_SIZE ==> r is None,
    {
        if address.0 < MEMORY_SIZE as u32 {
            Some(Subsector(address.0 as usize / SUBSECTOR_SIZE))
        } else {
            None
        }
    }

    /// Size of a subsector in bytes.
    pub fn size() -> (r: usize)
        ensures
            r == SUBSECTOR_SIZE,
    {
        SUBSECTOR_SIZE
    }

    /// Whether the address lies in the subsector.
    pub fn contains(&self, address: Address) -> (r: bool)
        requires
            self.0 < NUMBER_OF_SUBSECTORS,
        ensures
            r == (self.0 * SUBSECTOR_SIZE <= address.0 < (self.0 + 1) * SUBSECTOR_SIZE),
    {
        let start = self.0 * SUBSECTOR_SIZE;
        start <= address.0 as usize && (address.0 as usize) < start + SUBSECTOR_SIZE
    }
}

impl Page {
    /// First address of the page.
    pub fn location(&self) -> (r: Address)
        requires
            self.0 < NUMBER_OF_PAGES,
        ensures
            r.0 == self.0 * PAGE_SIZE,
    {
        Address((self.0 * PAGE_SIZE) as u32)
    }

    /// Address right after the page.
    pub fn end(&self) -> (r: Address)
        requires
            self.0 < NUMBER_OF_PAGES,
        ensures
            r.0 == (self.0 + 1) * PAGE_SIZE,
    {
        Address(((self.0 + 1) * PAGE_SIZE) as u32)
    }

    /// The page containing the address, if the address is in the chip.
    pub fn at(address: Address) -> (r: Option<Self>)
        ensures
            address.0 < MEMORY_SIZE ==> r == Some(Page((address.0 as int / PAGE_SIZE as int) as usize)),
            address.0 >= MEMORY_SIZE ==> r is None,
    {
        if address.0 < MEMORY_SIZE as u32 {
            Some(Page(address.0 as usize / PAGE_SIZE))
        } else {
            None
        }
    }

    /// Size of a page in bytes.
    pub fn size() -> (r: usize)
        ensures
            r == PAGE_SIZE,
    {
        PAGE_SIZE
    }

    /// Whether the address lies in the page.
    pub fn contains(&self, address: Address) -> (r: bool)
        requires
            self.0 < NUMBER_OF_PAGES,
        ensures
            r == (self.0 * PAGE_SIZE <= address.0 < (self.0 + 1) * PAGE_SIZE),
    {
        let start = self.0 * PAGE_SIZE;
        start <= address.0 as usize && (address.0 as usize) < start + PAGE_SIZE
    }
}

/// Programming a range in two consecutive pieces is programming it whole.
proof fn lemma_program_in_pieces(s: Seq<u8>, at: int, data: Seq<u8>, x: int, y: int)
    requires
        0 <= x <= y <= data.len(),
    ensures
        program_range(program_range(s, at, data.subrange(0, x)), at + x, data.subrange(x, y))
            == program_range(s, at, data.subrange(0, y)),
{
    let lhs = program_range(program_range(s, at, data.subrange(0, x)), at + x, data.subrange(x, y));
    let rhs = program_range(s, at, data.subrange(0, y));
    assert forall|i: int| 0 <= i < s.len() implies #[trigger] lhs[i] == rhs[i] by {
        if at <= i < at + x {
            assert(data.subrange(0, x)[i - at] == data.subrange(0, y)[i - at]);
        } else if at + x <= i < at + y {
            assert(data.subrange(x, y)[i - at - x] == data.subrange(0, y)[i - at]);
        }
    }
    assert(lhs =~= rhs);
}

/// Answer to the read-id command is the expected manufacturer identifier.
pub fn check_manufacturer_id(response: u8) -> (r: Result<(), Error>)
    ensures
        r is Ok <==> response == MANUFACTURER_ID,
        r is Err ==> r == Err::<(), Error>(Error::WrongManufacturerId),
{
    if response == MANUFACTURER_ID {
        Ok(())
    } else {
        Err(Error::WrongManufacturerId)
    }
}

/// Hardware cells are usable by the driver: they cover the whole chip.
pub open spec fn cells_cover_chip<H: NorCells>(hardware: H) -> bool {
    hardware.base() == 0 && hardware.cells().len() >= MEMORY_SIZE
}

/// The part of subsector `k` that a write of `bytes` at `address` covers
/// must be erased first: some bit of the new data is set where the cell
/// holds it clear, which programming alone cannot do.
pub open spec fn needs_erase(cells: Seq<u8>, address: int, bytes: Seq<u8>, k: int) -> bool {
    let start = k * SUBSECTOR_SIZE;
    let end = start + SUBSECTOR_SIZE;
    let lo = if address > start { address } else { start };
    let hi = if address + bytes.len() < end { address + bytes.len() } else { end };
    !bits_subset(bytes.subrange(lo - address, hi - address), cells.subrange(lo, end))
}

/// The commands that program `data` from `at`, one page program per page
/// touched: each waits for the chip to be ready (a status read), enables
/// writing, programs the part of `data` that falls in the page, and waits
/// for the program to finish (another status read).
pub open spec fn page_program_commands(at: int, data: Seq<u8>) -> Seq<NorCommand>
    decreases data.len(),
{
    if data.len() == 0 {
        Seq::empty()
    } else {
        let room = (at / PAGE_SIZE as int + 1) * PAGE_SIZE - at;
        let chunk = if data.len() < room { data.len() as int } else { room };
        if chunk <= 0 {
            Seq::empty()
        } else {
            seq![
                NorCommand::ReadStatus,
                NorCommand::WriteEnable,
                NorCommand::Program(at, data.subrange(0, chunk)),
                NorCommand::ReadStatus,
            ] + page_program_commands(at + chunk, data.subrange(chunk, data.len() as int))
        }
    }
}

/// Subsector `k` once a write of `bytes` at `address` is merged into it.
pub open spec fn merged_subsector(cells: Seq<u8>, address: int, bytes: Seq<u8>, k: int) -> Seq<u8> {
    let start = k * SUBSECTOR_SIZE;
    Seq::new(
        SUBSECTOR_SIZE as nat,
        |m: int|
            if address <= start + m < address + bytes.len() {
                bytes[start + m - address]
            } else {
                cells[start + m]
            },
    )
}

/// The commands a write of `bytes` at `address` issues for subsector `k`:
/// it reads the subsector (a status read, then the read); when the new data
/// only clears bits it programs that data page by page; otherwise it erases
/// the subsector (status read, write enable, erase, status read) and
/// programs the whole subsector back, merged with the new data.
pub open spec fn subsector_commands(cells: Seq<u8>, address: int, bytes: Seq<u8>, k: int) -> Seq<NorCommand> {
    let start = k * SUBSECTOR_SIZE;
    let end = start + SUBSECTOR_SIZE;
    let lo = if address > start { address } else { start };
    let hi = if address + bytes.len() < end { address + bytes.len() } else { end };
    seq![NorCommand::ReadStatus, NorCommand::Read(start, SUBSECTOR_SIZE as int)] + if needs_erase(
        cells,
        address,
        bytes,
        k,
    ) {
        seq![
            NorCommand::ReadStatus,
            NorCommand::WriteEnable,
            NorCommand::Erase(start, SUBSECTOR_SIZE as int),
            NorCommand::ReadStatus,
        ] + page_program_commands(start, merged_subsector(cells, address, bytes, k))
    } else {
        page_program_commands(lo, bytes.subrange(lo - address, hi - address))
    }
}

/// The commands a write issues for subsectors `from` up to (not including)
/// `to`, in ascending order.
pub open spec fn write_commands(cells: Seq<u8>, address: int, bytes: Seq<u8>, from: int, to: int) -> Seq<NorCommand>
    decreases to - from,
{
    if to <= from {
        Seq::empty()
    } else {
        write_commands(cells, address, bytes, from, to - 1) + subsector_commands(cells, address, bytes, to - 1)
    }
}

/// One past the last subsector that a write of `len` (at least one) bytes
/// at `address` touches.
pub open spec fn subsector_end(address: int, len: int) -> int {
    if (address + len) % (SUBSECTOR_SIZE as int) == 0 {
        (address + len) / (SUBSECTOR_SIZE as int)
    } else {
        (address + len) / (SUBSECTOR_SIZE as int) + 1
    }
}

/// Micron N25Q128A driver, over the raw NOR cells of the chip.
pub struct MicronN25q128a<H: NorCells> {
    hardware: H,
}

impl<H: NorCells> MicronN25q128a<H> {
    /// Current contents of the chip, indexed by address.
    pub closed spec fn cells(self) -> Seq<u8> {
        self.hardware.cells()
    }

    /// The commands the chip received so far, in order.
    pub closed spec fn commands(self) -> Seq<NorCommand> {
        self.hardware.commands()
    }

    /// The chip reports a write in progress.
    pub closed spec fn busy(self) -> bool {
        self.hardware.busy()
    }

    /// Lowest address that holds a cell of the chip.
    pub closed spec fn cells_base(self) -> nat {
        self.hardware.base()
    }

    /// The cells cover the whole chip.
    pub closed spec fn covers(self) -> bool {
        cells_cover_chip(self.hardware)
    }

    /// Takes ownership of the chip's cells: sends the read-id command, and
    /// fails unless the chip answers with the expected manufacturer
    /// identifier.
    pub fn new(hardware: H) -> (r: Result<Self, Error>)
        ensures
            r is Ok <==> hardware.id() == MANUFACTURER_ID,
            r is Err ==> r matches Err(Error::WrongManufacturerId),
            r matches Ok(f) ==> {
                &&& f.cells() == hardware.cells()
                &&& f.covers() == cells_cover_chip(hardware)
                &&& f.busy() == hardware.busy()
                &&& f.commands() == hardware.commands().push(NorCommand::ReadId)
            },
    {
        let mut hardware = hardware;
        let id = hardware.read_id();
        match check_manufacturer_id(id) {
            Ok(()) => Ok(MicronN25q128a { hardware }),
            Err(e) => Err(e),
        }
    }

    /// Gives the chip's cells back.
    pub fn release(self) -> (h: H)
        ensures
            h.cells() == self.cells(),
    {
        self.hardware
    }

    /// The chip's address range.
    pub fn range() -> (r: (Address, Address))
        ensures
            r.0.0 == 0,
            r.1.0 == MEMORY_SIZE,
    {
        (MemoryMap::location(), MemoryMap::end())
    }

    fn check_coverage(&self) -> (r: bool)
        ensures
            r == self.covers(),
    {
        let (base, end) = self.hardware.extent();
        base == 0 && end >= MEMORY_SIZE
    }

    /// Reads `len` bytes from `address`: a status read (yielding while a
    /// write is in progress), then the read.
    pub fn read(&mut self, address: Address, len: usize) -> (r: Result<Vec<u8>, Error>)
        ensures
            final(self).cells() == old(self).cells(),
            final(self).covers() == old(self).covers(),
            final(self).busy() == old(self).busy(),
            old(self).busy() ==> r == Err::<Vec<u8>, Error>(Error::WouldBlock),
            r is Ok <==> address.0 + len <= MEMORY_SIZE && old(self).covers() && !old(self).busy(),
            r is Err && !old(self).busy() ==> r matches Err(Error::AddressOutOfRange),
            r matches Ok(v) ==> v@ == old(self).cells().subrange(address.0 as int, address.0 + len),
            r is Ok ==> final(self).commands() == old(self).commands() + seq![
                NorCommand::ReadStatus,
                NorCommand::Read(address.0 as int, len as int),
            ],
            r is Err ==> final(self).commands() == old(self).commands().push(NorCommand::ReadStatus),
    {
        if self.hardware.write_in_progress() {
            return Err(Error::WouldBlock);
        }
        if len > MEMORY_SIZE || address.0 as usize > MEMORY_SIZE - len || !self.check_coverage() {
            return Err(Error::AddressOutOfRange);
        }
        Ok(self.hardware.read_cells(address.0 as usize, len))
    }

    /// Waits for the chip to be ready: a status read, which reports no
    /// write in progress.
    fn wait_ready(&mut self)
        requires
            !old(self).busy(),
        ensures
            final(self).cells() == old(self).cells(),
            final(self).hardware.base() == old(self).hardware.base(),
            final(self).busy() == old(self).busy(),
            final(self).commands() == old(self).commands().push(NorCommand::ReadStatus),
    {
        let in_progress = self.hardware.write_in_progress();
        assert(!in_progress);
    }

    /// Programs `data` at `address`, one page program per page touched.
    fn program_pages(&mut self, address: usize, data: &[u8])
        requires
            cells_cover_chip(old(self).hardware),
            !old(self).busy(),
            address + data@.len() <= MEMORY_SIZE,
        ensures
            cells_cover_chip(final(self).hardware),
            final(self).busy() == old(self).busy(),
            final(self).cells() == program_range(old(self).cells(), address as int, data@),
            final(self).commands() == old(self).commands() + page_program_commands(address as int, data@),
    {
        let ghost old_cells = self.cells();
        let ghost old_log = self.commands();
        let mut done: usize = 0;
        proof {
            assert(data@.subrange(0, data@.len() as int) =~= data@);
            assert(data@.subrange(0, 0) =~= Seq::<u8>::empty());
        }
        while done < data.len()
            invariant
                done <= data@.len(),
                address + data@.len() <= MEMORY_SIZE,
                cells_cover_chip(self.hardware),
                !self.busy(),
                self.cells() == program_range(old_cells, address as int, data@.subrange(0, done as int)),
                self.commands() + page_program_commands(address + done, data@.subrange(done as int, data@.len() as int))
                    == old_log + page_program_commands(address as int, data@),
            decreases data@.len() - done,
        {
            let at = address + done;
            let page_end = (at / PAGE_SIZE + 1) * PAGE_SIZE;
            let remaining = data.len() - done;
            let chunk = if remaining < page_end - at { remaining } else { page_end - at };
            let piece = &data[done..done + chunk];
            let ghost before = self.commands();
            let ghost rest = data@.subrange(done as int, data@.len() as int);
            proof {
                assert(rest.subrange(0, chunk as int) =~= piece@);
                assert(rest.subrange(chunk as int, rest.len() as int) =~= data@.subrange(done + chunk, data@.len() as int));
            }
            self.wait_ready();
            self.hardware.write_enable();
            self.hardware.program_cells(at, piece);
            self.wait_ready();
            proof {
                lemma_program_in_pieces(old_cells, address as int, data@, done as int, (done + chunk) as int);
                assert(self.commands() =~= before + seq![
                    NorCommand::ReadStatus,
                    NorCommand::WriteEnable,
                    NorCommand::Program(at as int, piece@),
                    NorCommand::ReadStatus,
                ]);
                assert(page_program_commands(at as int, rest) == seq![
                    NorCommand::ReadStatus,
                    NorCommand::WriteEnable,
                    NorCommand::Program(at as int, piece@),
                    NorCommand::ReadStatus,
                ] + page_program_commands(at + chunk, data@.subrange(done + chunk, data@.len() as int)));
                assert(self.commands() + page_program_commands(at + chunk, data@.subrange(done + chunk, data@.len() as int))
                    =~= before + page_program_commands(at as int, rest));
            }
            done = done + chunk;
        }
        proof {
            assert(data@.subrange(0, data@.len() as int) =~= data@);
            assert(self.commands() + Seq::<NorCommand>::empty() =~= self.commands());
        }
    }

    /// Writes the part of `bytes` (meant for `address`) that falls in
    /// subsector `k`: in place when it only clears bits, otherwise by
    /// erasing the subsector and rewriting it merged with the new part.
    fn write_subsector(&mut self, k: usize, address: usize, bytes: &[u8])
        requires
            k < NUMBER_OF_SUBSECTORS,
            cells_cover_chip(old(self).hardware),
            !old(self).busy(),
            address + bytes@.len() <= MEMORY_SIZE,
            address < (k + 1) * SUBSECTOR_SIZE,
            k * SUBSECTOR_SIZE < address + bytes@.len(),
        ensures
            cells_cover_chip(final(self).hardware),
            final(self).busy() == old(self).busy(),
            final(self).cells().len() == old(self).cells().len(),
            forall|i: int|
                0 <= i < old(self).cells().len() && !(address <= i < address + bytes@.len()
                    && k * SUBSECTOR_SIZE <= i < (k + 1) * SUBSECTOR_SIZE) ==> #[trigger] final(self).cells()[i]
                    == old(self).cells()[i],
            forall|i: int|
                address <= i < address + bytes@.len() && k * SUBSECTOR_SIZE <= i < (k + 1)
                    * SUBSECTOR_SIZE ==> #[trigger] final(self).cells()[i] == bytes@[i - address],
            final(self).commands() == old(self).commands() + subsector_commands(old(self).cells(), address as int, bytes@, k as int),
    {
        let start = k * SUBSECTOR_SIZE;
        let end = start + SUBSECTOR_SIZE;
        let last = address + bytes.len();
        let lo = if address > start { address } else { start };
        let hi = if last < end { last } else { end };
        let block = &bytes[lo - address..hi - address];
        let ghost old_cells = self.cells();
        let ghost old_log = self.commands();
        self.wait_ready();
        let subsector_data = self.hardware.read_cells(start, SUBSECTOR_SIZE);
        let ghost after_read = self.commands();
        proof {
            assert(after_read =~= old_log + seq![NorCommand::ReadStatus, NorCommand::Read(start as int, SUBSECTOR_SIZE as int)]);
        }
        let offset = lo - start;
        let tail = &subsector_data.as_slice()[offset..SUBSECTOR_SIZE];
        proof {
            assert(tail@ =~= old_cells.subrange(lo as int, end as int));
        }
        if is_subset_of(block, tail) {
            proof {
                assert(old_cells.subrange(lo as int, lo + block@.len()) =~= tail@.subrange(
                    0,
                    block@.len() as int,
                ));
                lemma_program_subset(old_cells, lo as int, block@);
            }
            self.program_pages(lo, block);
            proof {
                assert(self.commands() =~= old_log + subsector_commands(old_cells, address as int, bytes@, k as int));
            }
        } else {
            self.wait_ready();
            self.hardware.write_enable();
            self.hardware.erase_cells(start, SUBSECTOR_SIZE);
            self.wait_ready();
            let ghost erased = self.cells();
            let ghost after_erase = self.commands();
            let mut merged = subsector_data;
            let mut j: usize = 0;
            while j < block.len()
                invariant
                    j <= block@.len(),
                    offset + block@.len() <= SUBSECTOR_SIZE,
                    merged@.len() == SUBSECTOR_SIZE,
                    forall|m: int|
                        0 <= m < SUBSECTOR_SIZE ==> #[trigger] merged@[m] == if offset <= m < offset
                            + j {
                            block@[m - offset]
                        } else {
                            old_cells[start + m]
                        },
                decreases block@.len() - j,
            {
                merged.set(offset + j, block[j]);
                j = j + 1;
            }
            proof {
                lemma_program_erased(erased, start as int, merged@);
                assert(merged@ =~= merged_subsector(old_cells, address as int, bytes@, k as int));
            }
            self.program_pages(start, merged.as_slice());
            proof {
                assert(self.commands() =~= old_log + subsector_commands(old_cells, address as int, bytes@, k as int));
            }
        }
    }

    /// Writes `bytes` at `address`: a status read (yielding while a write is
    /// in progress), then subsector by subsector, the commands of
    /// [`subsector_commands`].
    pub fn write(&mut self, address: Address, bytes: &[u8]) -> (r: Result<(), Error>)
        ensures
            final(self).covers() == old(self).covers(),
            final(self).busy() == old(self).busy(),
            old(self).busy() ==> r == Err::<(), Error>(Error::WouldBlock),
            r is Ok <==> address.0 + bytes@.len() <= MEMORY_SIZE && old(self).covers() && !old(self).busy(),
            r is Err && !old(self).busy() ==> r matches Err(Error::AddressOutOfRange),
            r is Err ==> final(self).cells() == old(self).cells(),
            r is Err ==> final(self).commands() == old(self).commands().push(NorCommand::ReadStatus),
            r is Ok ==> final(self).cells() == splice(old(self).cells(), address.0 as int, bytes@),
            r is Ok ==> final(self).commands() == old(self).commands().push(NorCommand::ReadStatus) + if bytes@.len() == 0 {
                Seq::<NorCommand>::empty()
            } else {
                write_commands(
                    old(self).cells(),
                    address.0 as int,
                    bytes@,
                    address.0 as int / (SUBSECTOR_SIZE as int),
                    subsector_end(address.0 as int, bytes@.len() as int),
                )
            },
    {
        if self.hardware.write_in_progress() {
            return Err(Error::WouldBlock);
        }
        if bytes.len() > MEMORY_SIZE || address.0 as usize > MEMORY_SIZE - bytes.len()
            || !self.check_coverage() {
            return Err(Error::AddressOutOfRange);
        }
        let ghost old_cells = self.cells();
        let ghost old_log = self.commands();
        if bytes.len() == 0 {
            proof {
                assert(self.cells() =~= splice(old_cells, address.0 as int, bytes@));
                assert(old_log + Seq::<NorCommand>::empty() =~= old_log);
            }
            return Ok(());
        }
        let a = address.0 as usize;
        let e = a + bytes.len();
        let mut k: usize = a / SUBSECTOR_SIZE;
        proof {
            assert(old_log =~= old_log + write_commands(old_cells, a as int, bytes@, (a / SUBSECTOR_SIZE) as int, k as int));
        }
        while k < NUMBER_OF_SUBSECTORS && k * SUBSECTOR_SIZE < e
            invariant
                a / SUBSECTOR_SIZE <= k <= NUMBER_OF_SUBSECTORS,
                k <= subsector_end(a as int, bytes@.len() as int),
                e == a + bytes@.len(),
                e <= MEMORY_SIZE,
                cells_cover_chip(self.hardware),
                !self.busy(),
                self.cells().len() == old_cells.len(),
                self.commands() == old_log + write_commands(old_cells, a as int, bytes@, (a / SUBSECTOR_SIZE) as int, k as int),
                forall|i: int|
                    0 <= i < old_cells.len() && !(a <= i < e && i < k * SUBSECTOR_SIZE) ==> #[trigger] self.cells()[i]
                        == old_cells[i],
                forall|i: int|
                    a <= i < e && i < k * SUBSECTOR_SIZE ==> #[trigger] self.cells()[i] == bytes@[i
                        - a],
            decreases NUMBER_OF_SUBSECTORS - k,
        {
            proof {
                let start: int = k * SUBSECTOR_SIZE;
                let end: int = start + SUBSECTOR_SIZE;
                let lo: int = if a > start { a as int } else { start };
                assert(self.cells().subrange(lo, end) =~= old_cells.subrange(lo, end));
                assert(merged_subsector(self.cells(), a as int, bytes@, k as int) =~= merged_subsector(
                    old_cells,
                    a as int,
                    bytes@,
                    k as int,
                ));
                assert(subsector_commands(self.cells(), a as int, bytes@, k as int) == subsector_commands(
                    old_cells,
                    a as int,
                    bytes@,
                    k as int,
                ));
            }
            self.write_subsector(k, a, bytes);
            proof {
                assert(self.commands() =~= old_log + write_commands(old_cells, a as int, bytes@, (a / SUBSECTOR_SIZE) as int, k + 1));
            }
            k = k + 1;
        }
        proof {
            assert(self.cells() =~= splice(old_cells, a as int, bytes@));
            assert(k == subsector_end(a as int, bytes@.len() as int));
        }
        Ok(())
    }
}

impl Error {
    /// The bootloader level error this driver error is reported as.
    pub fn into_boot_error(self) -> (e: BootError)
        ensures
            e == (match self {
                Error::TimeOut => BootError::DriverError("External flash timed out"),
                Error::QspiError => BootError::DriverError("External flash QSPI error"),
                Error::WrongManufacturerId => BootError::DriverError("External flash has the wrong manufacturer id"),
                Error::MisalignedAccess => BootError::DriverError("Misaligned external flash access"),
                Error::AddressOutOfRange => BootError::DriverError("External flash address out of range"),
                Error::WouldBlock => BootError::DriverError("External flash is busy"),
            }),
    {
        match self {
            Error::TimeOut => BootError::DriverError("External flash timed out"),
            Error::QspiError => BootError::DriverError("External flash QSPI error"),
            Error::WrongManufacturerId => BootError::DriverError("External flash has the wrong manufacturer id"),
            Error::MisalignedAccess => BootError::DriverError("Misaligned external flash access"),
            Error::AddressOutOfRange => BootError::DriverError("External flash address out of range"),
            Error::WouldBlock => BootError::DriverError("External flash is busy"),
        }
    }
}

impl<H: NorCells> ReadWrite for MicronN25q128a<H> {
    open spec fn contents(&self) -> Seq<u8> {
        self.cells()
    }

    open spec fn readable(&self, address: int, len: int) -> bool {
        0 <= address && 0 <= len && address + len <= MEMORY_SIZE && self.covers() && !self.busy()
    }

    open spec fn writable(&self, address: int, len: int) -> bool {
        0 <= address && 0 <= len && address + len <= MEMORY_SIZE && self.covers() && !self.busy()
    }

    open spec fn spill(&self) -> nat {
        0
    }

    proof fn lemma_ranges_in_bounds(&self, address: int, len: int) {
        if self.covers() {
            assert(cells_cover_chip(self.hardware));
        }
    }

    fn read(&mut self, address: usize, len: usize) -> (r: Result<Vec<u8>, BootError>) {
        if address > MEMORY_SIZE {
            return Err(Error::AddressOutOfRange.into_boot_error());
        }
        match MicronN25q128a::read(self, Address(address as u32), len) {
            Ok(v) => Ok(v),
            Err(e) => Err(e.into_boot_error()),
        }
    }

    fn write(&mut self, address: usize, bytes: &[u8]) -> (r: Result<(), BootError>) {
        if address > MEMORY_SIZE {
            return Err(Error::AddressOutOfRange.into_boot_error());
        }
        match MicronN25q128a::write(self, Address(address as u32), bytes) {
            Ok(()) => Ok(()),
            Err(e) => Err(e.into_boot_error()),
        }
    }
}

impl<H: NorCells> BulkErase for MicronN25q128a<H> {
    open spec fn erasable_contents(&self) -> Seq<u8> {
        self.cells()
    }

    /// No write is in progress, and the chip's cells start at address zero,
    /// so the whole chip can be addressed.
    open spec fn erasable(&self) -> bool {
        !self.busy() && self.cells_base() == 0
    }

    fn erase(&mut self) -> (r: Result<(), BootError>)
        ensures
            old(self).busy() ==> r == Err::<(), BootError>(BootError::DriverError("External flash is busy")),
            !old(self).busy() && r is Err ==> r == Err::<(), BootError>(
                BootError::DriverError("External flash address out of range"),
            ),
            r is Err ==> final(self).commands() == old(self).commands().push(NorCommand::ReadStatus),
            r is Ok ==> final(self).commands() == old(self).commands() + seq![
                NorCommand::ReadStatus,
                NorCommand::WriteEnable,
                NorCommand::Erase(0, old(self).cells().len() as int),
                NorCommand::WriteDisable,
            ],
    {
        let ghost old_log = self.commands();
        if self.hardware.write_in_progress() {
            return Err(Error::WouldBlock.into_boot_error());
        }
        let (base, end) = self.hardware.extent();
        if base != 0 {
            return Err(Error::AddressOutOfRange.into_boot_error());
        }
        self.hardware.write_enable();
        self.hardware.erase_cells(0, end);
        self.hardware.write_disable();
        assert(self.commands() =~= old_log + seq![
            NorCommand::ReadStatus,
            NorCommand::WriteEnable,
            NorCommand::Erase(0, end as int),
            NorCommand::WriteDisable,
        ]);
        Ok(())
    }
}

} // verus!
