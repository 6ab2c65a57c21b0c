//! Internal flash of the STM32F412: its memory map, and a driver that turns
//! the raw NOR cells of the main memory area into a [`ReadWrite`] memory.

use vstd::prelude::*;
use crate::error::Error as BootError;
use super::{
    bits_subset, erase_range, is_subset_of, lemma_program_erased, lemma_program_subset,
    program_range, splice, NorCells, ReadWrite,
};

verus! {

/// Number of sectors in the memory map.
pub const SECTOR_NUMBER: usize = 15;

/// Address in the MCU's memory space.
#[derive(Copy, Clone, Debug, PartialEq, Eq, Structural)]
pub struct Address(pub u32);

/// Address blocks of the STM32F412 memory map.
#[derive(Copy, Clone, Debug, PartialEq, Eq, Structural)]
pub enum Block {
    /// Main memory, reserved for the bootloader.
    Boot,
    /// Main memory, where application images are written.
    Main,
    SystemMemory,
    OneTimeProgrammable,
    OptionBytes,
}

/// A memory map sector: its block, and the address range it spans.
#[derive(Copy, Clone, Debug, PartialEq, Eq, Structural)]
pub struct Sector {
    pub block: Block,
    pub location: Address,
    pub size: usize,
}

/// The full sector layout of the chip.
pub struct MemoryMap {
    pub sectors: [Sector; SECTOR_NUMBER],
}

/// A half open range of addresses, `[start, end)`.
#[derive(Copy, Clone, Debug, PartialEq, Eq, Structural)]
pub struct Range(pub Address, pub Address);

/// Errors of the internal flash driver.
#[derive(Copy, Clone, Debug, PartialEq, Eq, Structural)]
pub enum Error {
    MemoryNotReachable,
    MisalignedAccess,
    /// The flash controller is busy with an earlier operation; try again.
    WouldBlock,
}

/// Start address of sector `i` of the memory map.
pub open spec fn sector_start(i: int) -> int {
    if i == 0 { 0x0800_0000 }
    else if i == 1 { 0x0800_4000 }
    else if i == 2 { 0x0800_8000 }
    else if i == 3 { 0x0800_C000 }
    else if i == 4 { 0x0801_0000 }
    else if i == 5 { 0x0802_0000 }
    else if i == 6 { 0x0804_0000 }
    else if i == 7 { 0x0806_0000 }
    else if i == 8 { 0x0808_0000 }
    else if i == 9 { 0x080A_0000 }
    else if i == 10 { 0x080C_0000 }
    else if i == 11 { 0x080E_0000 }
    else if i == 12 { 0x1FFF_0000 }
    else if i == 13 { 0x1FFF_7800 }
    else { 0x1FFF_C000 }
}

/// Size in bytes of sector `i` of the memory map.
pub open spec fn sector_size(i: int) -> int {
    if i <= 3 { 0x4000 }
    else if i == 4 { 0x10000 }
    else if i <= 11 { 0x20000 }
    else if i == 12 { 0x7800 }
    else if i == 13 { 0x210 }
    else { 0x10 }
}

/// Block of sector `i` of the memory map.
pub open spec fn sector_block(i: int) -> Block {
    if i <= 3 { Block::Boot }
    else if i <= 11 { Block::Main }
    else if i == 12 { Block::SystemMemory }
    else if i == 13 { Block::OneTimeProgrammable }
    else { Block::OptionBytes }
}

/// Sector `i` of the memory map.
pub open spec fn spec_sector(i: int) -> Sector {
    Sector {
        block: sector_block(i),
        location: Address(sector_start(i) as u32),
        size: sector_size(i) as usize,
    }
}

/// The memory map's sectors, in ascending address order.
pub open spec fn spec_sectors() -> Seq<Sector> {
    Seq::new(SECTOR_NUMBER as nat, |i: int| spec_sector(i))
}

/// First address of a sector.
pub open spec fn start_of(s: Sector) -> int {
    s.location.0 as int
}

/// Address right after a sector.
pub open spec fn end_of(s: Sector) -> int {
    s.location.0 + s.size
}

/// The memory map's sectors are ordered and do not overlap.
pub proof fn lemma_sectors_ordered()
    ensures
        forall|i: int, j: int|
            0 <= i < j < SECTOR_NUMBER ==> end_of(#[trigger] spec_sector(i)) <= start_of(
                #[trigger] spec_sector(j),
            ),
        forall|i: int| 0 <= i < SECTOR_NUMBER ==> #[trigger] sector_size(i) > 0,
        forall|i: int|
            0 <= i < SECTOR_NUMBER ==> #[trigger] sector_start(i) % 4 == 0 && sector_size(i) % 4
                == 0,
{
}

/// A range overlaps a sector when the two share an address: the range
/// starts before the sector ends and ends after the sector starts.
pub open spec fn overlaps(r: Range, s: Sector) -> bool {
    r.0.0 < end_of(s) && r.1.0 > start_of(s)
}

/// Lowest index at or above `k` of a sector that the range overlaps, or
/// `SECTOR_NUMBER` when there is none.
pub open spec fn first_overlap_from(r: Range, k: int) -> int
    decreases SECTOR_NUMBER - k,
{
    if k >= SECTOR_NUMBER {
        SECTOR_NUMBER as int
    } else if overlaps(r, spec_sector(k)) {
        k
    } else {
        first_overlap_from(r, k + 1)
    }
}

/// Highest index below `k` of a sector that the range overlaps, or `-1`.
pub open spec fn last_overlap_below(r: Range, k: int) -> int
    decreases k,
{
    if k <= 0 {
        -1
    } else if overlaps(r, spec_sector(k - 1)) {
        k - 1
    } else {
        last_overlap_below(r, k - 1)
    }
}

/// Sectors spanned by a range: from the first to the last sector it
/// overlaps. A range that overlaps no sector spans the first sector alone.
pub open spec fn spec_span(r: Range) -> Seq<Sector> {
    let first = first_overlap_from(r, 0);
    let last = last_overlap_below(r, SECTOR_NUMBER as int);
    if first < SECTOR_NUMBER && last >= first {
        spec_sectors().subrange(first, last + 1)
    } else {
        spec_sectors().subrange(0, 1)
    }
}

/// Every sector a range spans is in the main block.
pub open spec fn spec_is_writable(r: Range) -> bool {
    forall|i: int| 0 <= i < spec_span(r).len() ==> #[trigger] spec_span(r)[i].block == Block::Main
}

proof fn lemma_first_overlap_bounds(r: Range, k: int)
    requires
        0 <= k <= SECTOR_NUMBER,
    ensures
        k <= first_overlap_from(r, k) <= SECTOR_NUMBER,
        first_overlap_from(r, k) < SECTOR_NUMBER ==> overlaps(
            r,
            spec_sector(first_overlap_from(r, k)),
        ),
        forall|j: int| k <= j < first_overlap_from(r, k) ==> !overlaps(r, #[trigger] spec_sector(j)),
    decreases SECTOR_NUMBER - k,
{
    if k < SECTOR_NUMBER && !overlaps(r, spec_sector(k)) {
        lemma_first_overlap_bounds(r, k + 1);
    }
}

proof fn lemma_last_overlap_bounds(r: Range, k: int)
    requires
        0 <= k <= SECTOR_NUMBER,
    ensures
        -1 <= last_overlap_below(r, k) < k,
        last_overlap_below(r, k) >= 0 ==> overlaps(r, spec_sector(last_overlap_below(r, k))),
        forall|j: int| last_overlap_below(r, k) < j < k ==> !overlaps(r, #[trigger] spec_sector(j)),
    decreases k,
{
    if k > 0 && !overlaps(r, spec_sector(k - 1)) {
        lemma_last_overlap_bounds(r, k - 1);
    }
}

/// Whether sector `i` of the memory map is spanned by the range.
pub open spec fn spans_index(r: Range, i: int) -> bool {
    let first = first_overlap_from(r, 0);
    let last = last_overlap_below(r, SECTOR_NUMBER as int);
    if first < SECTOR_NUMBER && last >= first {
        first <= i <= last
    } else {
        i == 0
    }
}

proof fn lemma_span_index(r: Range)
    ensures
        forall|i: int|
            0 <= i < SECTOR_NUMBER ==> (spans_index(r, i) ==> spec_sector(i).block == Block::Main)
                == (spans_index(r, i) ==> #[trigger] sector_block(i) == Block::Main),
        spec_is_writable(r) <==> forall|i: int|
            0 <= i < SECTOR_NUMBER && #[trigger] spans_index(r, i) ==> sector_block(i)
                == Block::Main,
{
    lemma_first_overlap_bounds(r, 0);
    lemma_last_overlap_bounds(r, SECTOR_NUMBER as int);
    let first = first_overlap_from(r, 0);
    let last = last_overlap_below(r, SECTOR_NUMBER as int);
    let sp = spec_span(r);
    if first < SECTOR_NUMBER && last >= first {
        assert forall|i: int| 0 <= i < SECTOR_NUMBER && #[trigger] spans_index(r, i) implies sp[i
            - first] == spec_sector(i) by {}
        if spec_is_writable(r) {
            assert forall|i: int|
                0 <= i < SECTOR_NUMBER && #[trigger] spans_index(r, i) implies sector_block(i)
                == Block::Main by {
                assert(sp[i - first].block == Block::Main);
            }
        }
        if forall|i: int|
            0 <= i < SECTOR_NUMBER && #[trigger] spans_index(r, i) ==> sector_block(i)
                == Block::Main {
            assert forall|k: int| 0 <= k < sp.len() implies #[trigger] sp[k].block == Block::Main by {
                assert(spans_index(r, k + first));
            }
        }
    } else {
        if spec_is_writable(r) {
            assert(sp[0].block == Block::Main);
        }
        if forall|i: int|
            0 <= i < SECTOR_NUMBER && #[trigger] spans_index(r, i) ==> sector_block(i)
                == Block::Main {
            assert(spans_index(r, 0));
        }
    }
}

/// In a writable range, every sector of the map that shares an address with
/// the range lies in the main block, and the range lies within the main
/// memory area.
proof fn lemma_writable_sectors(r: Range)
    requires
        spec_is_writable(r),
    ensures
        0x0801_0000 <= r.0.0,
        r.0.0 < 0x0810_0000,
        forall|i: int|
            0 <= i < SECTOR_NUMBER && r.0.0 < sector_start(i) + sector_size(i) && sector_start(i)
                < r.1.0 ==> #[trigger] sector_block(i) == Block::Main,
{
    lemma_sectors_ordered();
    lemma_span_index(r);
    lemma_first_overlap_bounds(r, 0);
    lemma_last_overlap_bounds(r, SECTOR_NUMBER as int);
    let first = first_overlap_from(r, 0);
    let last = last_overlap_below(r, SECTOR_NUMBER as int);
    if !(first < SECTOR_NUMBER && last >= first) {
        assert(spans_index(r, 0));
        assert(sector_block(0) == Block::Main);
        assert(false);
    }
    assert(spans_index(r, first));
    assert(spans_index(r, last));
    assert(sector_block(first) == Block::Main);
    assert(sector_block(last) == Block::Main);
    assert(4 <= first <= last <= 11);
    assert(overlaps(r, spec_sector(first)));
    if r.0.0 < 0x0801_0000 {
        if r.1.0 > 0x0801_0000 {
            assert(overlaps(r, spec_sector(3)));
            assert(first <= 3);
        } else {
            assert(start_of(spec_sector(first)) < r.1.0);
        }
        assert(false);
    }
    assert forall|i: int|
        0 <= i < SECTOR_NUMBER && r.0.0 < sector_start(i) + sector_size(i) && sector_start(i)
            < r.1.0 implies #[trigger] sector_block(i) == Block::Main by {
        assert(overlaps(r, spec_sector(i)));
        assert(first <= i);
        assert(i <= last);
        assert(spans_index(r, i));
    }
    assert(overlaps(r, spec_sector(first)));
    assert(overlaps(r, spec_sector(last)));
}

/// Sector `i` of the memory map.
pub fn sector_at(i: usize) -> (s: Sector)
    requires
        i < SECTOR_NUMBER,
    ensures
        s == spec_sector(i as int),
{
    let (block, location, size) = if i == 0 {
        (Block::Boot, 0x0800_0000u32, 0x4000usize)
    } else if i == 1 {
        (Block::Boot, 0x0800_4000u32, 0x4000usize)
    } else if i == 2 {
        (Block::Boot, 0x0800_8000u32, 0x4000usize)
    } else if i == 3 {
        (Block::Boot, 0x0800_C000u32, 0x4000usize)
    } else if i == 4 {
        (Block::Main, 0x0801_0000u32, 0x10000usize)
    } else if i == 5 {
        (Block::Main, 0x0802_0000u32, 0x20000usize)
    } else if i == 6 {
        (Block::Main, 0x0804_0000u32, 0x20000usize)
    } else if i == 7 {
        (Block::Main, 0x0806_0000u32, 0x20000usize)
    } else if i == 8 {
        (Block::Main, 0x0808_0000u32, 0x20000usize)
    } else if i == 9 {
        (Block::Main, 0x080A_0000u32, 0x20000usize)
    } else if i == 10 {
        (Block::Main, 0x080C_0000u32, 0x20000usize)
    } else if i == 11 {
        (Block::Main, 0x080E_0000u32, 0x20000usize)
    } else if i == 12 {
        (Block::SystemMemory, 0x1FFF_0000u32, 0x7800usize)
    } else if i == 13 {
        (Block::OneTimeProgrammable, 0x1FFF_7800u32, 0x210usize)
    } else {
        (Block::OptionBytes, 0x1FFF_C000u32, 0x10usize)
    };
    Sector { block, location: Address(location), size }
}

/// The chip's memory map.
pub fn memory_map() -> (m: MemoryMap)
    ensures
        m.sectors@ == spec_sectors(),
{
    let m = MemoryMap {
        sectors: [
            sector_at(0),
            sector_at(1),
            sector_at(2),
            sector_at(3),
            sector_at(4),
            sector_at(5),
            sector_at(6),
            sector_at(7),
            sector_at(8),
            sector_at(9),
            sector_at(10),
            sector_at(11),
            sector_at(12),
            sector_at(13),
            sector_at(14),
        ],
    };
    assert(m.sectors@ =~= spec_sectors());
    m
}


/// Sectors of the map that lie in the main memory area (boot or main block).
pub open spec fn in_main_area(s: Sector) -> bool {
    s.block == Block::Boot || s.block == Block::Main
}

/// The map is sound: consecutive main area sectors are contiguous, and
/// every sector's range is valid.
pub open spec fn spec_is_sound(sectors: Seq<Sector>) -> bool {
    &&& forall|i: int, j: int|
        0 <= i < j < sectors.len() && in_main_area(#[trigger] sectors[i]) && in_main_area(
            #[trigger] sectors[j],
        ) && (forall|k: int| i < k < j ==> !in_main_area(#[trigger] sectors[k])) ==> end_of(
            sectors[i],
        ) == start_of(sectors[j])
    &&& forall|i: int|
        0 <= i < sectors.len() ==> #[trigger] spec_range_is_valid(
            Range(sectors[i].location, Address((start_of(sectors[i]) + sectors[i].size) as u32)),
        )
}

/// A range is valid when it is monotonic and does not lie entirely before
/// the end of the first sector or at or after the end of the last.
pub open spec fn spec_range_is_valid(r: Range) -> bool {
    let after_map = r.0.0 >= end_of(spec_sector(SECTOR_NUMBER - 1));
    let before_map = r.1.0 < end_of(spec_sector(0));
    let monotonic = r.1.0 >= r.0.0;
    monotonic && !before_map && !after_map
}

impl Sector {
    /// First address of the sector.
    pub fn start(&self) -> (a: Address)
        ensures
            a == self.location,
    {
        self.location
    }

    /// Address right after the sector.
    pub fn end(&self) -> (a: Address)
        requires
            end_of(*self) <= u32::MAX,
        ensures
            a.0 == end_of(*self),
    {
        Address(self.location.0 + self.size as u32)
    }

    /// A sector of the given block spanning `size` bytes from `location`.
    pub fn new(block: Block, location: Address, size: usize) -> (s: Self)
        ensures
            s == (Sector { block, location, size }),
    {
        Sector { block, location, size }
    }

    /// Whether the sector contains the given address.
    pub fn contains(&self, address: Address) -> (r: bool)
        requires
            end_of(*self) <= u32::MAX,
        ensures
            r == (start_of(*self) <= address.0 < end_of(*self)),
    {
        self.location.0 <= address.0 && self.end().0 > address.0
    }

    /// Only sectors of the main block can be written.
    pub fn is_writable(&self) -> (r: bool)
        ensures
            r == (self.block == Block::Main),
    {
        match self.block {
            Block::Main => true,
            _ => false,
        }
    }

    /// Whether the sector belongs to the main memory area (boot or main block).
    pub fn is_in_main_memory_area(&self) -> (r: bool)
        ensures
            r == in_main_area(*self),
    {
        match self.block {
            Block::Boot | Block::Main => true,
            _ => false,
        }
    }

    /// Index of this sector within the memory map, for sectors of the main
    /// memory area; `None` for any other sector.
    pub fn number(&self) -> (r: Option<u8>)
        ensures
            r matches Some(n) ==> n < SECTOR_NUMBER && spec_sector(n as int) == *self
                && in_main_area(*self) && forall|k: int|
                0 <= k < n ==> spec_sector(k) != *self,
            r is None ==> !in_main_area(*self) || forall|k: int|
                0 <= k < SECTOR_NUMBER ==> spec_sector(k) != *self,
    {
        let mut i: usize = 0;
        while i < SECTOR_NUMBER
            invariant
                i <= SECTOR_NUMBER,
                forall|k: int| 0 <= k < i ==> !(in_main_area(spec_sector(k)) && spec_sector(k) == *self),
            decreases SECTOR_NUMBER - i,
        {
            let s = sector_at(i);
            if s.is_in_main_memory_area() && s == *self {
                return Some(i as u8);
            }
            i = i + 1;
        }
        None
    }
}

impl Range {
    /// Whether this range overlaps the sector: they share an address.
    pub fn overlaps(&self, sector: &Sector) -> (r: bool)
        requires
            end_of(*sector) <= u32::MAX,
        ensures
            r == overlaps(*self, *sector),
    {
        let start = sector.location.0;
        let end = sector.end().0;
        self.0.0 < end && self.1.0 > start
    }

    /// Sectors spanned by this range of addresses.
    pub fn span(&self) -> (r: Vec<Sector>)
        ensures
            r@ == spec_span(*self),
    {
        proof {
            lemma_first_overlap_bounds(*self, 0);
            lemma_last_overlap_bounds(*self, SECTOR_NUMBER as int);
        }
        let mut first: usize = SECTOR_NUMBER;
        let mut i: usize = 0;
        while i < SECTOR_NUMBER
            invariant
                i <= SECTOR_NUMBER,
                first <= SECTOR_NUMBER,
                first == SECTOR_NUMBER ==> first_overlap_from(*self, 0) == first_overlap_from(
                    *self,
                    i as int,
                ),
                first < SECTOR_NUMBER ==> first == first_overlap_from(*self, 0),
            decreases SECTOR_NUMBER - i,
        {
            if first == SECTOR_NUMBER && self.overlaps(&sector_at(i)) {
                first = i;
            }
            i = i + 1;
        }
        let mut last: usize = SECTOR_NUMBER;
        let mut j: usize = SECTOR_NUMBER;
        while j > 0
            invariant
                j <= SECTOR_NUMBER,
                last <= SECTOR_NUMBER,
                last == SECTOR_NUMBER ==> last_overlap_below(*self, SECTOR_NUMBER as int)
                    == last_overlap_below(*self, j as int),
                last < SECTOR_NUMBER ==> last == last_overlap_below(*self, SECTOR_NUMBER as int),
            decreases j,
        {
            if last == SECTOR_NUMBER && self.overlaps(&sector_at(j - 1)) {
                last = j - 1;
            }
            j = j - 1;
        }
        proof {
            assert(first_overlap_from(*self, SECTOR_NUMBER as int) == SECTOR_NUMBER);
            assert(last_overlap_below(*self, 0) == -1);
            assert(first as int == first_overlap_from(*self, 0));
            if last < SECTOR_NUMBER {
                assert(last as int == last_overlap_below(*self, SECTOR_NUMBER as int));
            } else {
                assert(last_overlap_below(*self, SECTOR_NUMBER as int) == -1);
            }
        }
        let (from, to) = if first < SECTOR_NUMBER && last < SECTOR_NUMBER && last >= first {
            (first, last + 1)
        } else {
            (0, 1)
        };
        proof {
            let f = first_overlap_from(*self, 0);
            let l = last_overlap_below(*self, SECTOR_NUMBER as int);
            if f < SECTOR_NUMBER && l >= f {
                assert(from == f && to == l + 1);
            } else {
                assert(from == 0 && to == 1);
            }
        }
        let mut out: Vec<Sector> = Vec::new();
        let mut k: usize = from;
        while k < to
            invariant
                from <= k <= to <= SECTOR_NUMBER,
                out@ == spec_sectors().subrange(from as int, k as int),
            decreases to - k,
        {
            out.push(sector_at(k));
            k = k + 1;
            assert(out@ =~= spec_sectors().subrange(from as int, k as int));
        }
        out
    }

    /// Whether the range is monotonic and reaches into the memory map.
    pub fn is_valid(&self) -> (r: bool)
        ensures
            r == spec_range_is_valid(*self),
    {
        let after_map = self.0.0 >= sector_at(SECTOR_NUMBER - 1).end().0;
        let before_map = self.1.0 < sector_at(0).end().0;
        let monotonic = self.1.0 >= self.0.0;
        monotonic && !before_map && !after_map
    }

    /// Whether every sector spanned by this range is writable.
    pub fn is_writable(&self) -> (r: bool)
        ensures
            r == spec_is_writable(*self),
    {
        let span = self.span();
        let mut i: usize = 0;
        while i < span.len()
            invariant
                i <= span@.len(),
                span@ == spec_span(*self),
                forall|k: int| 0 <= k < i ==> #[trigger] span@[k].block == Block::Main,
            decreases span@.len() - i,
        {
            if !span[i].is_writable() {
                return false;
            }
            i = i + 1;
        }
        true
    }
}

impl MemoryMap {
    /// The chip's memory map.
    pub fn new() -> (m: Self)
        ensures
            m.sectors@ == spec_sectors(),
    {
        memory_map()
    }

    /// Verifies that the memory map is consecutive and well formed: each
    /// main area sector ends where the next main area sector starts, and
    /// every sector spans a valid range.
    pub fn is_sound(&self) -> (r: bool)
        requires
            forall|i: int|
                0 <= i < SECTOR_NUMBER ==> end_of(#[trigger] self.sectors@[i]) <= u32::MAX,
        ensures
            r == spec_is_sound(self.sectors@),
    {
        let ghost sectors = self.sectors@;
        // Consecutive main area sectors must be contiguous.
        let mut previous: Option<usize> = None;
        let mut i: usize = 0;
        while i < SECTOR_NUMBER
            invariant
                i <= SECTOR_NUMBER,
                sectors == self.sectors@,
                forall|k: int| 0 <= k < SECTOR_NUMBER ==> end_of(#[trigger] sectors[k]) <= u32::MAX,
                previous matches Some(p) ==> p < i && in_main_area(sectors[p as int]) && forall|
                    k: int,
                | p < k < i ==> !in_main_area(#[trigger] sectors[k]),
                previous is None ==> forall|k: int| 0 <= k < i ==> !in_main_area(#[trigger] sectors[k]),
                forall|a: int, b: int|
                    0 <= a < b < i && in_main_area(#[trigger] sectors[a]) && in_main_area(
                        #[trigger] sectors[b],
                    ) && (forall|k: int| a < k < b ==> !in_main_area(#[trigger] sectors[k]))
                        ==> end_of(sectors[a]) == start_of(sectors[b]),
            decreases SECTOR_NUMBER - i,
        {
            let s = self.sectors[i];
            if s.is_in_main_memory_area() {
                if let Some(p) = previous {
                    if self.sectors[p].end() != s.start() {
                        proof {
                            assert(!(end_of(sectors[p as int]) == start_of(sectors[i as int])));
                        }
                        return false;
                    }
                }
                previous = Some(i);
            }
            i = i + 1;
        }
        let mut j: usize = 0;
        while j < SECTOR_NUMBER
            invariant
                j <= SECTOR_NUMBER,
                sectors == self.sectors@,
                forall|k: int| 0 <= k < SECTOR_NUMBER ==> end_of(#[trigger] sectors[k]) <= u32::MAX,
                forall|k: int|
                    0 <= k < j ==> #[trigger] spec_range_is_valid(
                        Range(sectors[k].location, Address((start_of(sectors[k]) + sectors[k].size) as u32)),
                    ),
            decreases SECTOR_NUMBER - j,
        {
            let s = self.sectors[j];
            let r = Range(s.start(), s.end());
            proof {
                assert(r == Range(
                    sectors[j as int].location,
                    Address((start_of(sectors[j as int]) + sectors[j as int].size) as u32),
                ));
            }
            if !r.is_valid() {
                return false;
            }
            j = j + 1;
        }
        true
    }
}

/// Size of the largest sector in the memory map.
pub fn max_sector_size() -> (r: usize)
    ensures
        forall|i: int| 0 <= i < SECTOR_NUMBER ==> sector_size(i) <= r,
        exists|i: int| 0 <= i < SECTOR_NUMBER && sector_size(i) == r,
{
    let mut index: usize = 0;
    let mut size: usize = 0;
    while index < SECTOR_NUMBER
        invariant
            index <= SECTOR_NUMBER,
            forall|i: int| 0 <= i < index ==> sector_size(i) <= size,
            index == 0 ==> size == 0,
            index > 0 ==> exists|i: int| 0 <= i < index && sector_size(i) == size,
        decreases SECTOR_NUMBER - index,
    {
        let sector_size = sector_at(index).size;
        if sector_size > size {
            size = sector_size;
        }
        index = index + 1;
    }
    size
}


/// The memory map is sound.
pub proof fn lemma_memory_map_is_sound()
    ensures
        spec_is_sound(spec_sectors()),
{
    let sectors = spec_sectors();
    assert forall|i: int, j: int|
        0 <= i < j < sectors.len() && in_main_area(#[trigger] sectors[i]) && in_main_area(
            #[trigger] sectors[j],
        ) && (forall|k: int| i < k < j ==> !in_main_area(#[trigger] sectors[k])) implies end_of(
        sectors[i],
    ) == start_of(sectors[j]) by {
        assert(i <= 11 && j <= 11);
        if j > i + 1 {
            assert(in_main_area(sectors[i + 1]));
        }
        assert(j == i + 1);
    }
}

/// `x` rounded up to the next multiple of four.
pub open spec fn round_up4(x: int) -> int {
    ((x + 3) / 4) * 4
}

/// Addresses below this bound have been handled once the sectors before
/// `k` have been processed.
pub open spec fn processed_bound(k: int) -> int {
    if k <= 11 { sector_start(k) } else { MAIN_AREA_END as int }
}

/// Last address of the main memory area, plus one.
pub const MAIN_AREA_END: u32 = 0x0810_0000;

/// A range of `len` bytes from `address` can be read or written by the
/// driver: word aligned, within the main memory area, and spanning writable
/// sectors only.
pub open spec fn spec_accessible(address: int, len: int) -> bool {
    &&& 0 <= address
    &&& 0 <= len
    &&& address + len <= MAIN_AREA_END
    &&& address % 4 == 0
    &&& spec_is_writable(Range(Address(address as u32), Address((address + len) as u32)))
}

/// Programming a bitwise subset padded with zero bytes to a whole number
/// of words leaves the subset in place and zeroes the padding.
proof fn lemma_program_padded(old_cells: Seq<u8>, lo: int, block: Seq<u8>)
    requires
        0 <= lo,
        lo % 4 == 0,
        round_up4(lo + block.len()) <= old_cells.len(),
        bits_subset(block, old_cells.subrange(lo, lo + block.len())),
    ensures
        ({
            let padded = block + Seq::new(
                (round_up4(block.len() as int) - block.len()) as nat,
                |i: int| 0u8,
            );
            let new_cells = program_range(old_cells, lo, padded);
            &&& new_cells.len() == old_cells.len()
            &&& forall|i: int| lo <= i < lo + block.len() ==> #[trigger] new_cells[i] == block[i - lo]
            &&& forall|i: int|
                lo + block.len() <= i < round_up4(lo + block.len()) ==> #[trigger] new_cells[i]
                    == 0u8
            &&& forall|i: int|
                0 <= i < old_cells.len() && !(lo <= i < round_up4(lo + block.len()))
                    ==> #[trigger] new_cells[i] == old_cells[i]
        }),
{
    let padded = block + Seq::new(
        (round_up4(block.len() as int) - block.len()) as nat,
        |i: int| 0u8,
    );
    let new_cells = program_range(old_cells, lo, padded);
    assert(round_up4(lo + block.len()) == lo + round_up4(block.len() as int));
    assert forall|i: int| lo <= i < lo + block.len() implies #[trigger] new_cells[i] == block[i
        - lo] by {
        let j = i - lo;
        assert(old_cells.subrange(lo, lo + block.len())[j] == old_cells[i]);
        let x = old_cells[i];
        let y = block[j];
        assert((y & x) == y);
        assert((y & x) == y ==> (x & y) == y) by (bit_vector);
        assert(padded[j] == y);
    }
    assert forall|i: int|
        lo + block.len() <= i < round_up4(lo + block.len()) implies #[trigger] new_cells[i]
        == 0u8 by {
        let x = old_cells[i];
        assert((x & 0u8) == 0u8) by (bit_vector);
        assert(padded[i - lo] == 0u8);
    }
}

/// Internal flash driver for the STM32F412, over the raw NOR cells of the
/// chip. The cells must cover the whole main memory area.
pub struct McuFlash<H: NorCells> {
    hardware: H,
}

/// Hardware cells are usable by the driver: they cover the main memory area.
pub open spec fn cells_cover_main_area<H: NorCells>(hardware: H) -> bool {
    hardware.base() <= 0x0801_0000 && hardware.cells().len() >= MAIN_AREA_END
}

impl<H: NorCells> McuFlash<H> {
    /// The cells cover the main memory area.
    pub closed spec fn covers(self) -> bool {
        cells_cover_main_area(self.hardware)
    }

    fn check_coverage(&self) -> (r: bool)
        ensures
            r == self.covers(),
    {
        let (base, end) = self.hardware.extent();
        base <= 0x0801_0000 && end >= MAIN_AREA_END as usize
    }

    /// Current contents of the flash, indexed by address.
    pub closed spec fn cells(self) -> Seq<u8> {
        self.hardware.cells()
    }

    /// The flash controller is busy with an earlier operation.
    pub closed spec fn busy(self) -> bool {
        self.hardware.busy()
    }

    /// Takes ownership of the flash cells. The memory map is checked for
    /// soundness first.
    pub fn new(hardware: H) -> (r: Result<Self, Error>)
        ensures
            r matches Ok(f) && f.cells() == hardware.cells() && f.covers() == cells_cover_main_area(
                hardware,
            ),
    {
        proof {
            lemma_memory_map_is_sound();
            lemma_sectors_ordered();
        }
        Ok(McuFlash { hardware })
    }

    /// Gives the flash cells back.
    pub fn release(self) -> (h: H)
        ensures
            h.cells() == self.cells(),
    {
        self.hardware
    }

    /// The cells as an address range: from the start of the first writable
    /// sector to the end of the last.
    pub fn writable_range() -> (r: (Address, Address))
        ensures
            r.0.0 == 0x0801_0000,
            r.1.0 == MAIN_AREA_END,
    {
        let mut first: Option<Sector> = None;
        let mut last: Option<Sector> = None;
        let mut i: usize = 0;
        while i < SECTOR_NUMBER
            invariant
                i <= SECTOR_NUMBER,
                i <= 4 ==> first is None,
                i > 4 ==> first == Some(spec_sector(4)),
                i <= 4 ==> last is None,
                4 < i <= 12 ==> last == Some(spec_sector(i - 1)),
                i > 12 ==> last == Some(spec_sector(11)),
            decreases SECTOR_NUMBER - i,
        {
            let s = sector_at(i);
            if s.is_writable() {
                if first.is_none() {
                    first = Some(s);
                }
                last = Some(s);
            }
            i = i + 1;
        }
        let first = first.unwrap();
        let last = last.unwrap();
        (first.start(), last.end())
    }

    /// Reads `len` bytes from `address`.
    pub fn read(&mut self, address: Address, len: usize) -> (r: Result<Vec<u8>, Error>)
        requires
            address.0 + len <= u32::MAX,
        ensures
            final(self).cells() == old(self).cells(),
            final(self).busy() == old(self).busy(),
            address.0 % 4 != 0 ==> r == Err::<Vec<u8>, Error>(Error::MisalignedAccess),
            final(self).covers() == old(self).covers(),
            address.0 % 4 == 0 && !(spec_accessible(address.0 as int, len as int) && old(self).covers()) ==> r == Err::<
                Vec<u8>,
                Error,
            >(Error::MemoryNotReachable),
            spec_accessible(address.0 as int, len as int) && old(self).covers() ==> (r matches Ok(v) && v@ == old(self).cells().subrange(address.0 as int, address.0 + len)),
    {
        let range = Range(address, Address(address.0 + len as u32));
        if address.0 % 4 != 0 {
            Err(Error::MisalignedAccess)
        } else if !range.is_writable() || address.0 + len as u32 > MAIN_AREA_END
            || !self.check_coverage() {
            Err(Error::MemoryNotReachable)
        } else {
            proof {
                lemma_writable_sectors(range);
            }
            Ok(self.hardware.read_cells(address.0 as usize, len))
        }
    }

    /// Programs `block` at `address`, padding the last word with zero bytes.
    fn write_bytes(&mut self, block: &[u8], address: usize)
        requires
            address % 4 == 0,
            old(self).hardware.base() <= address,
            round_up4(address + block@.len()) <= old(self).hardware.cells().len(),
        ensures
            final(self).hardware.base() == old(self).hardware.base(),
            final(self).hardware.busy() == old(self).hardware.busy(),
            final(self).hardware.cells().len() == old(self).hardware.cells().len(),
            final(self).hardware.cells() == program_range(
                old(self).hardware.cells(),
                address as int,
                block@ + Seq::new((round_up4(block@.len() as int) - block@.len()) as nat, |i: int| 0u8),
            ),
    {
        let mut words: Vec<u8> = Vec::new();
        let mut i: usize = 0;
        while i < block.len()
            invariant
                i <= block@.len(),
                words@ == block@.subrange(0, i as int),
            decreases block@.len() - i,
        {
            words.push(block[i]);
            i = i + 1;
            assert(words@ =~= block@.subrange(0, i as int));
        }
        let padding = (4 - block.len() % 4) % 4;
        let mut p: usize = 0;
        while p < padding
            invariant
                p <= padding,
                padding == (round_up4(block@.len() as int) - block@.len()),
                words@ == block@ + Seq::new(p as nat, |i: int| 0u8),
            decreases padding - p,
        {
            words.push(0u8);
            p = p + 1;
            assert(words@ =~= block@ + Seq::new(p as nat, |i: int| 0u8));
        }
        let ghost padded = words@;
        assert(padded == block@ + Seq::new((round_up4(block@.len() as int) - block@.len()) as nat, |i: int| 0u8));
        self.hardware.program_cells(address, words.as_slice());
        assert(self.hardware.cells() == program_range(old(self).hardware.cells(), address as int, padded));
    }

    /// Programs `block` at `lo` without erasing, the block being a bitwise
    /// subset of the cells it lands on.
    fn program_in_place(&mut self, lo: usize, block: &[u8])
        requires
            lo % 4 == 0,
            cells_cover_main_area(old(self).hardware),
            0x0801_0000 <= lo,
            round_up4(lo + block@.len()) <= MAIN_AREA_END,
            bits_subset(block@, old(self).cells().subrange(lo as int, lo + block@.len())),
        ensures
            cells_cover_main_area(final(self).hardware),
            final(self).hardware.busy() == old(self).hardware.busy(),
            final(self).hardware.base() == old(self).hardware.base(),
            final(self).cells().len() == old(self).cells().len(),
            forall|i: int|
                lo <= i < lo + block@.len() ==> #[trigger] final(self).cells()[i] == block@[i - lo],
            forall|i: int|
                lo + block@.len() <= i < round_up4(lo + block@.len()) ==> #[trigger] final(self).cells()[i] == 0u8,
            forall|i: int|
                0 <= i < old(self).cells().len() && !(lo <= i < round_up4(lo + block@.len()))
                    ==> #[trigger] final(self).cells()[i] == old(self).cells()[i],
    {
        let ghost old_cells = self.cells();
        self.write_bytes(block, lo);
        proof {
            lemma_program_padded(old_cells, lo as int, block@);
        }
    }

    /// Erases the sector spanning `size` bytes from `start`, then programs
    /// it back with its previous contents, `sector_data`, where `block`
    /// replaces the bytes from `offset` on.
    fn erase_and_merge(
        &mut self,
        start: usize,
        size: usize,
        sector_data: Vec<u8>,
        offset: usize,
        block: &[u8],
    )
        requires
            cells_cover_main_area(old(self).hardware),
            0x0801_0000 <= start,
            start + size <= MAIN_AREA_END,
            offset + block@.len() <= size,
            sector_data@ == old(self).cells().subrange(start as int, start + size),
        ensures
            cells_cover_main_area(final(self).hardware),
            final(self).hardware.busy() == old(self).hardware.busy(),
            final(self).hardware.base() == old(self).hardware.base(),
            final(self).cells().len() == old(self).cells().len(),
            forall|i: int|
                start + offset <= i < start + offset + block@.len() ==> #[trigger] final(self).cells()[i] == block@[i - start - offset],
            forall|i: int|
                0 <= i < old(self).cells().len() && !(start + offset <= i < start + offset
                    + block@.len()) ==> #[trigger] final(self).cells()[i] == old(self).cells()[i],
    {
        let ghost old_cells = self.cells();
        self.hardware.erase_cells(start, size);
        let ghost erased = self.cells();
        let mut merged = sector_data;
        let mut j: usize = 0;
        while j < block.len()
            invariant
                j <= block@.len(),
                offset + block@.len() <= size,
                merged@.len() == size,
                forall|m: int|
                    0 <= m < size ==> #[trigger] merged@[m] == if offset <= m < offset + j {
                        block@[m - offset]
                    } else {
                        old_cells[start + m]
                    },
            decreases block@.len() - j,
        {
            merged.set(offset + j, block[j]);
            j = j + 1;
        }
        self.hardware.program_cells(start, merged.as_slice());
        proof {
            lemma_program_erased(erased, start as int, merged@);
        }
    }

    /// Writes the part of `bytes` (meant for `address`) that falls in sector
    /// `k`. When that part is a bitwise subset of what the sector holds it is
    /// programmed in place; otherwise the sector is erased and rewritten with
    /// its previous contents merged with the new part.
    #[verifier::spinoff_prover]
    #[verifier::rlimit(50)]
    fn write_sector(&mut self, k: usize, address: usize, bytes: &[u8])
        requires
            4 <= k <= 11,
            address % 4 == 0,
            cells_cover_main_area(old(self).hardware),
            address + bytes@.len() <= MAIN_AREA_END,
            address < sector_start(k as int) + sector_size(k as int),
            sector_start(k as int) < address + bytes@.len(),
        ensures
            cells_cover_main_area(final(self).hardware),
            final(self).hardware.busy() == old(self).hardware.busy(),
            final(self).hardware.base() == old(self).hardware.base(),
            final(self).cells().len() == old(self).cells().len(),
            forall|i: int|
                0 <= i < old(self).cells().len() && !(sector_start(k as int) <= i < sector_start(
                    k as int,
                ) + sector_size(k as int)) ==> #[trigger] final(self).cells()[i] == old(self).cells()[i],
            forall|i: int|
                address <= i < address + bytes@.len() && sector_start(k as int) <= i
                    < sector_start(k as int) + sector_size(k as int) ==> #[trigger] final(self).cells()[i]
                    == bytes@[i - address],
            forall|i: int|
                sector_start(k as int) <= i < sector_start(k as int) + sector_size(k as int) && !(
                address <= i < address + bytes@.len()) ==> #[trigger] final(self).cells()[i]
                    == old(self).cells()[i] || (address + bytes@.len() <= i < round_up4(
                    address + bytes@.len(),
                ) && final(self).cells()[i] == 0u8),
    {
        let s = sector_at(k);
        proof {
            assert(sector_start(k as int) % 4 == 0 && sector_size(k as int) % 4 == 0);
            assert(0x0801_0000 <= sector_start(k as int));
            assert(sector_start(k as int) + sector_size(k as int) <= MAIN_AREA_END);
        }
        let start = s.location.0 as usize;
        let end = start + s.size;
        let last = address + bytes.len();
        let lo = if address > start { address } else { start };
        let hi = if last < end { last } else { end };
        let block = &bytes[lo - address..hi - address];
        let ghost old_cells = self.cells();
        let sector_data = self.hardware.read_cells(start, s.size);
        assert(self.cells() == old_cells);
        assert(cells_cover_main_area(self.hardware));
        let offset = lo - start;
        let tail = &sector_data.as_slice()[offset..s.size];
        proof {
            assert(hi == last || (hi == end && round_up4(hi as int) == hi));
            assert(round_up4(hi as int) <= end);
            assert(tail@ =~= old_cells.subrange(lo as int, end as int));
        }
        if is_subset_of(block, tail) {
            proof {
                assert(old_cells.subrange(lo as int, lo + block@.len()) =~= tail@.subrange(
                    0,
                    block@.len() as int,
                ));
            }
            self.program_in_place(lo, block);
        } else {
            self.erase_and_merge(start, s.size, sector_data, offset, block);
        }
    }

    /// Writes `bytes` at `address`. Each sector touched by the write is
    /// either programmed in place, when the new data only clears bits, or
    /// erased and rewritten with its previous contents merged with the new
    /// data. Programming pads the last word with zero bytes.
    pub fn write(&mut self, address: Address, bytes: &[u8]) -> (r: Result<(), Error>)
        requires
            address.0 + bytes@.len() <= u32::MAX,
        ensures
            final(self).covers() == old(self).covers(),
            final(self).cells().len() == old(self).cells().len(),
            address.0 % 4 != 0 ==> r == Err::<(), Error>(Error::MisalignedAccess),
            final(self).busy() == old(self).busy(),
            address.0 % 4 == 0 && !(spec_accessible(address.0 as int, bytes@.len() as int) && old(self).covers()) ==> r == Err::<(), Error>(Error::MemoryNotReachable),
            spec_accessible(address.0 as int, bytes@.len() as int) && old(self).covers() && old(self).busy() ==> r == Err::<(), Error>(Error::WouldBlock),
            r is Err ==> final(self).cells() == old(self).cells(),
            r is Ok <==> spec_accessible(address.0 as int, bytes@.len() as int) && old(self).covers() && !old(self).busy(),
            r is Ok ==> forall|i: int|
                address.0 <= i < address.0 + bytes@.len() ==> #[trigger] final(self).cells()[i]
                    == bytes@[i - address.0],
            r is Ok ==> forall|i: int|
                0 <= i < old(self).cells().len() && !(address.0 <= i < round_up4(
                    address.0 + bytes@.len(),
                )) ==> #[trigger] final(self).cells()[i] == old(self).cells()[i],
            r is Ok ==> forall|i: int|
                address.0 + bytes@.len() <= i < round_up4(address.0 + bytes@.len()) ==> #[trigger] final(self).cells()[i] == old(self).cells()[i] || final(self).cells()[i] == 0u8,
    {
        let last = address.0 + bytes.len() as u32;
        let range = Range(address, Address(last));
        if address.0 % 4 != 0 {
            return Err(Error::MisalignedAccess);
        }
        if !range.is_writable() || last > MAIN_AREA_END || !self.check_coverage() {
            return Err(Error::MemoryNotReachable);
        }
        if self.hardware.write_in_progress() {
            return Err(Error::WouldBlock);
        }
        proof {
            lemma_writable_sectors(range);
            lemma_sectors_ordered();
        }
        let a = address.0 as usize;
        let e = last as usize;
        let ghost old_cells = self.cells();
        let mut k: usize = 0;
        while k < SECTOR_NUMBER
            invariant
                k <= SECTOR_NUMBER,
                a % 4 == 0,
                a == address.0,
                e == a + bytes@.len(),
                0x0801_0000 <= a <= e <= MAIN_AREA_END,
                cells_cover_main_area(self.hardware),
                self.hardware.busy() == old(self).hardware.busy(),
                self.cells().len() == old_cells.len(),
                forall|i: int|
                    processed_bound(k as int) <= i < old_cells.len() ==> #[trigger] self.cells()[i]
                        == old_cells[i],
                forall|i: int|
                    0 <= i < old_cells.len() && !(a <= i < round_up4(e as int)) ==> #[trigger] self.cells()[i]
                        == old_cells[i],
                forall|i: int|
                    a <= i < e && i < processed_bound(k as int) ==> #[trigger] self.cells()[i]
                        == bytes@[i - a],
                forall|i: int|
                    e <= i < round_up4(e as int) ==> #[trigger] self.cells()[i] == old_cells[i]
                        || self.cells()[i] == 0u8,
            decreases SECTOR_NUMBER - k,
        {
            let s = sector_at(k);
            let start = s.location.0 as usize;
            let end = start + s.size;
            if start < e && a < end {
                proof {
                    assert(sector_block(k as int) == Block::Main);
                }
                self.write_sector(k, a, bytes);
            }
            k = k + 1;
        }
        Ok(())
    }
}

impl Error {
    /// The bootloader level error this driver error is reported as.
    pub fn into_boot_error(self) -> (e: BootError)
        ensures
            e == (match self {
                Error::MemoryNotReachable => BootError::DriverError("MCU flash memory not reachable"),
                Error::MisalignedAccess => BootError::DriverError("Misaligned MCU flash access"),
                Error::WouldBlock => BootError::DriverError("MCU flash is busy"),
            }),
    {
        match self {
            Error::MemoryNotReachable => BootError::DriverError("MCU flash memory not reachable"),
            Error::MisalignedAccess => BootError::DriverError("Misaligned MCU flash access"),
            Error::WouldBlock => BootError::DriverError("MCU flash is busy"),
        }
    }
}

/// A range of `len` bytes from `address` fits in the 32 bit address space.
pub open spec fn fits_u32(address: int, len: int) -> bool {
    0 <= address && 0 <= len && address + len <= u32::MAX
}

impl<H: NorCells> ReadWrite for McuFlash<H> {
    open spec fn contents(&self) -> Seq<u8> {
        self.cells()
    }

    open spec fn readable(&self, address: int, len: int) -> bool {
        fits_u32(address, len) && spec_accessible(address, len) && self.covers()
    }

    open spec fn writable(&self, address: int, len: int) -> bool {
        fits_u32(address, len) && spec_accessible(address, len) && self.covers() && !self.busy()
    }

    open spec fn spill(&self) -> nat {
        3
    }

    proof fn lemma_ranges_in_bounds(&self, address: int, len: int) {
    }

    fn read(&mut self, address: usize, len: usize) -> (r: Result<Vec<u8>, BootError>) {
        if len > u32::MAX as usize || address > u32::MAX as usize - len {
            return Err(Error::MemoryNotReachable.into_boot_error());
        }
        match McuFlash::read(self, Address(address as u32), len) {
            Ok(v) => Ok(v),
            Err(e) => Err(e.into_boot_error()),
        }
    }

    fn write(&mut self, address: usize, bytes: &[u8]) -> (r: Result<(), BootError>) {
        if bytes.len() > u32::MAX as usize || address > u32::MAX as usize - bytes.len() {
            return Err(Error::MemoryNotReachable.into_boot_error());
        }
        match McuFlash::write(self, Address(address as u32), bytes) {
            Ok(()) => Ok(()),
            Err(e) => Err(e.into_boot_error()),
        }
    }
}

} // verus!
