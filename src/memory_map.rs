//! The memory map of the internal flash: sectors tagged by purpose, the
//! fixed table for the STM32F412, its soundness check, and the bounds of the
//! writable area.
use vstd::prelude::*;

use crate::address::Address;

verus! {

/// Address blocks of the internal flash.
#[derive(Copy, Clone, Debug, PartialEq, Eq, Structural)]
pub enum Block {
    /// Main memory, but reserved for immutable data (e.g. a bootloader image)
    Reserved,
    /// Main memory, where the application is written
    Main,
    SystemMemory,
    OneTimeProgrammable,
    OptionBytes,
}

/// A memory map sector, with an associated block and an address range.
#[derive(Copy, Clone, Debug, PartialEq, Eq, Structural)]
pub struct Sector {
    pub block: Block,
    pub location: Address,
    pub size: usize,
}

/// Number of sectors in the memory map.
pub const SECTOR_NUMBER: usize = 15;

/// One kibibyte.
pub const KB: usize = 1024;

impl Sector {
    /// The sector ends inside the 32-bit address space.
    pub open spec fn wf(self) -> bool {
        self.location.0 + self.size <= u32::MAX
    }

    pub open spec fn spec_start(self) -> int {
        self.location.0 as int
    }

    pub open spec fn spec_end(self) -> int {
        self.location.0 + self.size
    }

    pub open spec fn spec_is_writable(self) -> bool {
        self.block == Block::Main
    }

    pub open spec fn spec_in_main_memory_area(self) -> bool {
        self.block == Block::Main || self.block == Block::Reserved
    }

    pub open spec fn spec_contains(self, address: int) -> bool {
        self.spec_start() <= address < self.spec_end()
    }

    pub fn new(block: Block, location: Address, size: usize) -> (r: Sector)
        requires
            location.0 + size <= u32::MAX,
        ensures
            r == (Sector { block, location, size }),
            r.wf(),
    {
        Sector { block, location, size }
    }

    pub fn start(&self) -> (r: Address)
        ensures
            r == self.location,
    {
        self.location
    }

    pub fn end(&self) -> (r: Address)
        requires
            self.wf(),
        ensures
            r.0 == self.spec_end(),
    {
        Address(self.location.0 + self.size as u32)
    }

    pub fn is_writable(&self) -> (r: bool)
        ensures
            r == self.spec_is_writable(),
    {
        match self.block {
            Block::Main => true,
            _ => false,
        }
    }

    /// Reserved and main sectors together form the main memory area, whose
    /// sectors the peripheral erases by index.
    pub fn is_in_main_memory_area(&self) -> (r: bool)
        ensures
            r == self.spec_in_main_memory_area(),
    {
        match self.block {
            Block::Main | Block::Reserved => true,
            _ => false,
        }
    }

    pub fn contains(&self, address: Address) -> (r: bool)
        requires
            self.wf(),
        ensures
            r == self.spec_contains(address.0 as int),
    {
        self.start().0 <= address.0 && self.end().0 > address.0
    }

    /// The hardware erase index of this sector: its position in the memory
    /// map, when it is a sector of the main memory area.
    pub fn number(&self) -> (r: Option<u8>)
        ensures
            r == sector_number(*self),
    {
        let sectors = MemoryMap::sectors();
        let mut i: usize = 0;
        while i < sectors.len()
            invariant
                sectors@ == map_sectors(),
                i <= sectors.len(),
                sector_number_from(*self, i as int) == sector_number(*self),
            decreases sectors.len() - i,
        {
            let s = sectors[i];
            if s.is_in_main_memory_area() && s == *self {
                return Some(i as u8);
            }
            i = i + 1;
        }
        None
    }
}

/// The sectors of the STM32F412, in address order within the main memory area.
pub open spec fn spec_sector(i: int) -> Sector {
    let (block, location, size) = if i == 0 {
        (Block::Reserved, 0x0800_0000u32, (16 * KB) as usize)
    } else if i == 1 {
        (Block::Reserved, 0x0800_4000u32, (16 * KB) as usize)
    } else if i == 2 {
        (Block::Reserved, 0x0800_8000u32, (16 * KB) as usize)
    } else if i == 3 {
        (Block::Reserved, 0x0800_C000u32, (16 * KB) as usize)
    } else if i == 4 {
        (Block::Main, 0x0801_0000u32, (64 * KB) as usize)
    } else if i == 5 {
        (Block::Main, 0x0802_0000u32, (128 * KB) as usize)
    } else if i == 6 {
        (Block::Main, 0x0804_0000u32, (128 * KB) as usize)
    } else if i == 7 {
        (Block::Main, 0x0806_0000u32, (128 * KB) as usize)
    } else if i == 8 {
        (Block::Main, 0x0808_0000u32, (128 * KB) as usize)
    } else if i == 9 {
        (Block::Main, 0x080A_0000u32, (128 * KB) as usize)
    } else if i == 10 {
        (Block::Main, 0x080C_0000u32, (128 * KB) as usize)
    } else if i == 11 {
        (Block::Main, 0x080E_0000u32, (128 * KB) as usize)
    } else if i == 12 {
        (Block::SystemMemory, 0x1FFF_0000u32, (32 * KB) as usize)
    } else if i == 13 {
        (Block::OneTimeProgrammable, 0x1FFF_7800u32, 528usize)
    } else {
        (Block::OptionBytes, 0x1FFF_C000u32, 16usize)
    };
    Sector { block, location: Address(location), size }
}

/// The memory map as a sequence of sectors.
pub open spec fn map_sectors() -> Seq<Sector> {
    Seq::new(SECTOR_NUMBER as nat, |i: int| spec_sector(i))
}

/// The erase index of `s`: the first position at or after `i` holding `s`,
/// when that sector is in the main memory area.
pub open spec fn sector_number_from(s: Sector, i: int) -> Option<u8>
    decreases SECTOR_NUMBER - i,
{
    if i < 0 || i >= SECTOR_NUMBER {
        None
    } else if spec_sector(i).spec_in_main_memory_area() && spec_sector(i) == s {
        Some(i as u8)
    } else {
        sector_number_from(s, i + 1)
    }
}

pub open spec fn sector_number(s: Sector) -> Option<u8> {
    sector_number_from(s, 0)
}

/// The fixed memory map of the device.
pub struct MemoryMap {
    sectors: Vec<Sector>,
}

impl View for MemoryMap {
    type V = Seq<Sector>;

    closed spec fn view(&self) -> Seq<Sector> {
        self.sectors@
    }
}

/// The first index at or after `i` of a writable sector (the length of the
/// map when there is none).
pub open spec fn first_writable_from(i: int) -> int
    decreases SECTOR_NUMBER - i,
{
    if i < 0 || i >= SECTOR_NUMBER {
        SECTOR_NUMBER as int
    } else if spec_sector(i).spec_is_writable() {
        i
    } else {
        first_writable_from(i + 1)
    }
}

/// The last index of the run of writable sectors that goes on from `i`.
pub open spec fn last_writable_from(i: int) -> int
    decreases SECTOR_NUMBER - i,
{
    if 0 <= i && i + 1 < SECTOR_NUMBER && spec_sector(i + 1).spec_is_writable() {
        last_writable_from(i + 1)
    } else {
        i
    }
}

/// Start of the first writable sector.
pub open spec fn spec_writable_start() -> int {
    spec_sector(first_writable_from(0)).spec_start()
}

/// End of the last sector of the writable run that begins at the first
/// writable sector.
pub open spec fn spec_writable_end() -> int {
    spec_sector(last_writable_from(first_writable_from(0))).spec_end()
}

/// Start of the map: start of its first sector.
pub open spec fn map_start() -> int {
    spec_sector(0).spec_start()
}

/// End of the map: end of its last sector.
pub open spec fn map_end() -> int {
    spec_sector(SECTOR_NUMBER - 1).spec_end()
}

/// Between two sectors of the main memory area with none of that area in
/// between, the first ends where the second starts.
pub open spec fn main_area_contiguous(s: Seq<Sector>) -> bool {
    forall|i: int, j: int|
        #![trigger s[i], s[j]]
        0 <= i < j < s.len() && s[i].spec_in_main_memory_area() && s[j].spec_in_main_memory_area()
            && (forall|k: int| i < k < j ==> !(#[trigger] s[k]).spec_in_main_memory_area())
            ==> s[i].spec_end() == s[j].spec_start()
}

/// Every sector, taken as a range, is a valid range.
pub open spec fn sector_ranges_valid(s: Seq<Sector>) -> bool {
    forall|i: int| 0 <= i < s.len() ==> spec_range_valid(#[trigger] s[i].spec_start(), s[i].spec_end())
}

/// The soundness of a memory map: a contiguous main memory area, and valid
/// sector ranges.
pub open spec fn sound(s: Seq<Sector>) -> bool {
    main_area_contiguous(s) && sector_ranges_valid(s)
}

/// `[low, high)` is ordered and neither wholly before nor wholly after the map.
pub open spec fn spec_range_valid(low: int, high: int) -> bool {
    high >= low && !(high <= map_start()) && !(low >= map_end())
}

/// The bounds of the fixed table and of its writable area.
pub proof fn lemma_map_bounds()
    ensures
        first_writable_from(0) == 4,
        last_writable_from(4) == 11,
        spec_writable_start() == 0x0801_0000,
        spec_writable_end() == 0x0810_0000,
        map_start() == 0x0800_0000,
        map_end() == 0x1FFF_C010,
{
    assert(first_writable_from(4) == 4);
    assert(first_writable_from(3) == 4);
    assert(first_writable_from(2) == 4);
    assert(first_writable_from(1) == 4);
    assert(first_writable_from(0) == 4);
    assert(last_writable_from(11) == 11);
    assert(last_writable_from(10) == 11);
    assert(last_writable_from(9) == 11);
    assert(last_writable_from(8) == 11);
    assert(last_writable_from(7) == 11);
    assert(last_writable_from(6) == 11);
    assert(last_writable_from(5) == 11);
    assert(last_writable_from(4) == 11);
}

/// What the proofs use of one sector of the fixed table.
pub proof fn lemma_sector_facts(i: int)
    requires
        0 <= i < SECTOR_NUMBER,
    ensures
        spec_sector(i).wf(),
        spec_sector(i).size > 0,
        spec_sector(i).spec_is_writable() <==> 4 <= i < 12,
        spec_sector(i).spec_in_main_memory_area() <==> i < 12,
        i < 11 ==> spec_sector(i).spec_end() == spec_sector(i + 1).spec_start(),
        i < 12 ==> 0x0800_0000 <= spec_sector(i).spec_start() && spec_sector(i).spec_end() <= 0x0810_0000,
        4 <= i < 12 ==> 0x0801_0000 <= spec_sector(i).spec_start(),
        i < 4 ==> spec_sector(i).spec_end() <= 0x0801_0000,
        i >= 12 ==> 0x1FFF_0000 <= spec_sector(i).spec_start() && spec_sector(i).spec_end() <= 0x1FFF_C010,
        i + 1 < SECTOR_NUMBER ==> spec_sector(i).spec_start() < spec_sector(i + 1).spec_start(),
        i + 1 < SECTOR_NUMBER && i != 12 ==> spec_sector(i).spec_end() <= spec_sector(i + 1).spec_start(),
{
}

/// Sectors start in table order, and each ends by the start of the next ones,
/// but for the system-memory sector, which holds the one-time-programmable one.
pub proof fn lemma_sorted(i: int, j: int)
    requires
        0 <= i < j < SECTOR_NUMBER,
    ensures
        spec_sector(i).spec_start() < spec_sector(j).spec_start(),
        i != 12 ==> spec_sector(i).spec_end() <= spec_sector(j).spec_start(),
    decreases j - i,
{
    lemma_sector_facts(i);
    lemma_sector_facts(j - 1);
    if j - 1 > i {
        lemma_sorted(i, j - 1);
    }
}

/// The fixed table is sound.
pub proof fn lemma_map_is_sound()
    ensures
        sound(map_sectors()),
{
    lemma_map_bounds();
    let s = map_sectors();
    assert forall|i: int, j: int|
        #![trigger s[i], s[j]]
        0 <= i < j < s.len() && s[i].spec_in_main_memory_area() && s[j].spec_in_main_memory_area()
            && (forall|k: int| i < k < j ==> !(#[trigger] s[k]).spec_in_main_memory_area())
        implies s[i].spec_end() == s[j].spec_start() by {
        lemma_sector_facts(i);
        lemma_sector_facts(j);
        if j > i + 1 {
            lemma_sector_facts(i + 1);
            assert(!s[i + 1].spec_in_main_memory_area());
        }
    }
    assert forall|i: int| 0 <= i < s.len() implies spec_range_valid(#[trigger] s[i].spec_start(), s[i].spec_end()) by {
        lemma_sector_facts(i);
    }
}

impl MemoryMap {
    /// The memory map of the device.
    pub fn new() -> (r: MemoryMap)
        ensures
            r@ == map_sectors(),
    {
        MemoryMap { sectors: MemoryMap::sectors() }
    }

    /// The sectors of the device, in table order.
    pub fn sectors() -> (r: Vec<Sector>)
        ensures
            r@ == map_sectors(),
    {
        let v = vec![
            Sector::new(Block::Reserved, Address(0x0800_0000), 16 * KB),
            Sector::new(Block::Reserved, Address(0x0800_4000), 16 * KB),
            Sector::new(Block::Reserved, Address(0x0800_8000), 16 * KB),
            Sector::new(Block::Reserved, Address(0x0800_C000), 16 * KB),
            Sector::new(Block::Main, Address(0x0801_0000), 64 * KB),
            Sector::new(Block::Main, Address(0x0802_0000), 128 * KB),
            Sector::new(Block::Main, Address(0x0804_0000), 128 * KB),
            Sector::new(Block::Main, Address(0x0806_0000), 128 * KB),
            Sector::new(Block::Main, Address(0x0808_0000), 128 * KB),
            Sector::new(Block::Main, Address(0x080A_0000), 128 * KB),
            Sector::new(Block::Main, Address(0x080C_0000), 128 * KB),
            Sector::new(Block::Main, Address(0x080E_0000), 128 * KB),
            Sector::new(Block::SystemMemory, Address(0x1FFF_0000), 32 * KB),
            Sector::new(Block::OneTimeProgrammable, Address(0x1FFF_7800), 528),
            Sector::new(Block::OptionBytes, Address(0x1FFF_C000), 16),
        ];
        assert(v@ =~= map_sectors());
        v
    }

    /// Checks that the main memory area is contiguous and that every sector
    /// is a valid range.
    pub fn is_sound(&self) -> (r: bool)
        requires
            forall|i: int| 0 <= i < self@.len() ==> (#[trigger] self@[i]).wf(),
        ensures
            r == sound(self@),
    {
        let mut consecutive = true;
        let mut ranges_valid = true;
        let mut previous: Option<Sector> = None;
        let mut i: usize = 0;
        let ghost s = self@;
        let ghost mut prev_index: int = -1;
        while i < self.sectors.len()
            invariant
                s == self@,
                forall|k: int| 0 <= k < s.len() ==> (#[trigger] s[k]).wf(),
                i <= s.len(),
                -1 <= prev_index < i,
                prev_index == -1 ==> previous is None,
                prev_index == -1 ==> forall|k: int| 0 <= k < i ==> !(#[trigger] s[k]).spec_in_main_memory_area(),
                prev_index >= 0 ==> previous == Some(s[prev_index]) && s[prev_index].spec_in_main_memory_area(),
                prev_index >= 0 ==> forall|k: int| prev_index < k < i ==> !(#[trigger] s[k]).spec_in_main_memory_area(),
                consecutive == (forall|a: int, b: int|
                    #![trigger s[a], s[b]]
                    0 <= a < b < i && s[a].spec_in_main_memory_area() && s[b].spec_in_main_memory_area()
                        && (forall|k: int| a < k < b ==> !(#[trigger] s[k]).spec_in_main_memory_area())
                        ==> s[a].spec_end() == s[b].spec_start()),
                ranges_valid == (forall|k: int| 0 <= k < i ==> spec_range_valid(#[trigger] s[k].spec_start(), s[k].spec_end())),
            decreases s.len() - i,
        {
            let sector = self.sectors[i];
            if sector.is_in_main_memory_area() {
                if let Some(p) = previous {
                    if p.end().0 != sector.start().0 {
                        consecutive = false;
                    }
                }
                previous = Some(sector);
                proof { prev_index = i as int; }
            }
            let valid = Range(sector.start(), sector.end()).is_valid();
            if !valid {
                ranges_valid = false;
            }
            assert(valid == spec_range_valid(s[i as int].spec_start(), s[i as int].spec_end()));
            i = i + 1;
        }
        consecutive && ranges_valid
    }

    /// Start of the writable area: start of the first writable sector.
    pub fn writable_start() -> (r: Address)
        ensures
            r.0 == spec_writable_start(),
    {
        proof { lemma_map_bounds(); }
        let sectors = MemoryMap::sectors();
        let mut i: usize = 0;
        while !sectors[i].is_writable()
            invariant
                sectors@ == map_sectors(),
                i <= 4,
                first_writable_from(i as int) == 4,
            decreases 4 - i,
        {
            i = i + 1;
        }
        sectors[i].start()
    }

    /// End of the writable area: end of the last sector of the run of
    /// writable sectors that starts at the first one.
    pub fn writable_end() -> (r: Address)
        ensures
            r.0 == spec_writable_end(),
    {
        proof { lemma_map_bounds(); }
        let sectors = MemoryMap::sectors();
        let mut i: usize = 0;
        // Reach the writable area.
        while !sectors[i].is_writable()
            invariant
                sectors@ == map_sectors(),
                i <= 4,
                first_writable_from(i as int) == 4,
            decreases 4 - i,
        {
            i = i + 1;
        }
        // Reach the end of the writable area.
        while i + 1 < sectors.len() && sectors[i + 1].is_writable()
            invariant
                sectors@ == map_sectors(),
                4 <= i < SECTOR_NUMBER,
                last_writable_from(i as int) == 11,
            decreases SECTOR_NUMBER - i,
        {
            i = i + 1;
        }
        sectors[i].end()
    }
}

/// The size of the largest sector of the map.
pub fn max_sector_size() -> (r: usize)
    ensures
        forall|i: int| 0 <= i < SECTOR_NUMBER ==> (#[trigger] spec_sector(i)).size <= r,
        exists|i: int| 0 <= i < SECTOR_NUMBER && (#[trigger] spec_sector(i)).size == r,
{
    let sectors = MemoryMap::sectors();
    let mut size: usize = sectors[0].size;
    let mut i: usize = 1;
    while i < sectors.len()
        invariant
            sectors@ == map_sectors(),
            1 <= i <= SECTOR_NUMBER,
            forall|k: int| 0 <= k < i ==> (#[trigger] spec_sector(k)).size <= size,
            exists|k: int| 0 <= k < i && (#[trigger] spec_sector(k)).size == size,
        decreases SECTOR_NUMBER - i,
    {
        if sectors[i].size > size {
            size = sectors[i].size;
        }
        i = i + 1;
    }
    size
}

/// A half-open range of addresses, `[self.0, self.1)`.
#[derive(Copy, Clone, Debug)]
pub struct Range(pub Address, pub Address);

/// The overlap test between `[a, b)` and a sector: the range reaches into the
/// sector from the left or from the right, contains it, or lies within it.
/// Touching at a shared boundary address is no overlap.
pub open spec fn spec_overlaps(a: int, b: int, s: Sector) -> bool {
    ||| (a <= s.spec_start() && b > s.spec_end())
    ||| (a < s.spec_end() && b >= s.spec_end())
    ||| (a >= s.spec_start() && a < s.spec_end())
    ||| (b < s.spec_end() && b > s.spec_start())
}

/// The first index at or after `i` of a sector that `[a, b)` overlaps (the
/// length of the map when there is none).
pub open spec fn first_overlap_from(a: int, b: int, i: int) -> int
    decreases SECTOR_NUMBER - i,
{
    if i < 0 || i >= SECTOR_NUMBER {
        SECTOR_NUMBER as int
    } else if spec_overlaps(a, b, spec_sector(i)) {
        i
    } else {
        first_overlap_from(a, b, i + 1)
    }
}

/// The last index below `i` of a sector that `[a, b)` overlaps (-1 when
/// there is none).
pub open spec fn last_overlap_below(a: int, b: int, i: int) -> int
    decreases i,
{
    if i <= 0 {
        -1
    } else if spec_overlaps(a, b, spec_sector(i - 1)) {
        i - 1
    } else {
        last_overlap_below(a, b, i - 1)
    }
}

/// The slice of the map that `[a, b)` spans, as a pair of indices: from the
/// first to the last overlapped sector, or the first sector alone when the
/// range overlaps none.
pub open spec fn span_bounds(a: int, b: int) -> (int, int) {
    let first = first_overlap_from(a, b, 0);
    let last = last_overlap_below(a, b, SECTOR_NUMBER as int);
    if first < SECTOR_NUMBER && last >= first {
        (first, last + 1)
    } else {
        (0, 1)
    }
}

pub open spec fn spec_span(a: int, b: int) -> Seq<Sector> {
    map_sectors().subrange(span_bounds(a, b).0, span_bounds(a, b).1)
}

/// Every sector that `[a, b)` spans is writable.
pub open spec fn spec_span_writable(a: int, b: int) -> bool {
    forall|i: int| 0 <= i < spec_span(a, b).len() ==> (#[trigger] spec_span(a, b)[i]).spec_is_writable()
}

pub proof fn lemma_first_overlap_from(a: int, b: int, i: int)
    requires
        0 <= i <= SECTOR_NUMBER,
    ensures
        i <= first_overlap_from(a, b, i) <= SECTOR_NUMBER,
        first_overlap_from(a, b, i) < SECTOR_NUMBER ==> spec_overlaps(a, b, spec_sector(first_overlap_from(a, b, i))),
        forall|k: int| i <= k < first_overlap_from(a, b, i) ==> !spec_overlaps(a, b, #[trigger] spec_sector(k)),
    decreases SECTOR_NUMBER - i,
{
    if i < SECTOR_NUMBER {
        lemma_first_overlap_from(a, b, i + 1);
    }
}

pub proof fn lemma_last_overlap_below(a: int, b: int, i: int)
    requires
        0 <= i <= SECTOR_NUMBER,
    ensures
        -1 <= last_overlap_below(a, b, i) < i,
        last_overlap_below(a, b, i) >= 0 ==> spec_overlaps(a, b, spec_sector(last_overlap_below(a, b, i))),
        forall|k: int| last_overlap_below(a, b, i) < k < i ==> !spec_overlaps(a, b, #[trigger] spec_sector(k)),
    decreases i,
{
    if i > 0 {
        lemma_last_overlap_below(a, b, i - 1);
    }
}

/// The span runs from the first overlapped sector to the last one; with no
/// overlapped sector it is the first sector of the map.
pub proof fn lemma_span_bounds(a: int, b: int)
    ensures
        0 <= span_bounds(a, b).0 < span_bounds(a, b).1 <= SECTOR_NUMBER,
        (exists|k: int| 0 <= k < SECTOR_NUMBER && spec_overlaps(a, b, #[trigger] spec_sector(k))) ==> {
            &&& spec_overlaps(a, b, spec_sector(span_bounds(a, b).0))
            &&& spec_overlaps(a, b, spec_sector(span_bounds(a, b).1 - 1))
            &&& forall|k: int| 0 <= k < span_bounds(a, b).0 ==> !spec_overlaps(a, b, #[trigger] spec_sector(k))
            &&& forall|k: int| span_bounds(a, b).1 <= k < SECTOR_NUMBER ==> !spec_overlaps(a, b, #[trigger] spec_sector(k))
        },
        !(exists|k: int| 0 <= k < SECTOR_NUMBER && spec_overlaps(a, b, #[trigger] spec_sector(k))) ==> span_bounds(a, b) == (0int, 1int),
{
    lemma_first_overlap_from(a, b, 0);
    lemma_last_overlap_below(a, b, SECTOR_NUMBER as int);
    let first = first_overlap_from(a, b, 0);
    let last = last_overlap_below(a, b, SECTOR_NUMBER as int);
    if exists|k: int| 0 <= k < SECTOR_NUMBER && spec_overlaps(a, b, #[trigger] spec_sector(k)) {
        let k = choose|k: int| 0 <= k < SECTOR_NUMBER && spec_overlaps(a, b, #[trigger] spec_sector(k));
        assert(first <= k);
        assert(last >= k);
    }
}

impl Range {
    pub open spec fn low(self) -> int {
        self.0.0 as int
    }

    pub open spec fn high(self) -> int {
        self.1.0 as int
    }

    pub fn is_valid(self) -> (r: bool)
        ensures
            r == spec_range_valid(self.low(), self.high()),
    {
        proof { lemma_map_bounds(); }
        let Range(Address(start), Address(end)) = self;
        let sectors = MemoryMap::sectors();
        let after_map = start >= sectors[SECTOR_NUMBER - 1].end().0;
        let before_map = end <= sectors[0].start().0;
        let monotonic = end >= start;
        monotonic && !before_map && !after_map
    }

    pub fn overlaps(self, sector: &Sector) -> (r: bool)
        requires
            sector.wf(),
        ensures
            r == spec_overlaps(self.low(), self.high(), *sector),
    {
        (self.0.0 <= sector.start().0) && (self.1.0 > sector.end().0)
            || (self.0.0 < sector.end().0) && (self.1.0 >= sector.end().0)
            || (self.0.0 >= sector.start().0 && self.0.0 < sector.end().0)
            || (self.1.0 < sector.end().0 && self.1.0 > sector.start().0)
    }
}

impl Range {
    /// Sectors spanned by this range of addresses.
    pub fn span(self) -> (r: Vec<Sector>)
        ensures
            r@ == spec_span(self.low(), self.high()),
    {
        let ghost (a, b) = (self.low(), self.high());
        let sectors = MemoryMap::sectors();
        let mut first: usize = 0;
        while first < sectors.len() && !self.overlaps(&sectors[first])
            invariant
                sectors@ == map_sectors(),
                first <= SECTOR_NUMBER,
                a == self.low() && b == self.high(),
                first_overlap_from(a, b, first as int) == first_overlap_from(a, b, 0),
            decreases SECTOR_NUMBER - first,
        {
            proof { lemma_sector_facts(first as int); }
            first = first + 1;
        }
        let mut end: usize = sectors.len();
        while end > 0 && !self.overlaps(&sectors[end - 1])
            invariant
                sectors@ == map_sectors(),
                end <= SECTOR_NUMBER,
                a == self.low() && b == self.high(),
                last_overlap_below(a, b, end as int) == last_overlap_below(a, b, SECTOR_NUMBER as int),
            decreases end,
        {
            proof { lemma_sector_facts(end - 1); }
            end = end - 1;
        }
        let (lo, hi) = if first < sectors.len() && end >= first + 1 {
            (first, end)
        } else {
            (0, 1)
        };
        let mut r: Vec<Sector> = Vec::new();
        let mut i: usize = lo;
        while i < hi
            invariant
                sectors@ == map_sectors(),
                lo <= i <= hi <= SECTOR_NUMBER,
                lo == span_bounds(a, b).0,
                hi == span_bounds(a, b).1,
                r@ == map_sectors().subrange(lo as int, i as int),
            decreases hi - i,
        {
            r.push(sectors[i]);
            i = i + 1;
            assert(r@ =~= map_sectors().subrange(lo as int, i as int));
        }
        r
    }

    /// All sectors spanned by this range are writable.
    pub fn is_writable(self) -> (r: bool)
        ensures
            r == spec_span_writable(self.low(), self.high()),
    {
        let span = self.span();
        let mut i: usize = 0;
        while i < span.len()
            invariant
                span@ == spec_span(self.low(), self.high()),
                i <= span.len(),
                forall|k: int| 0 <= k < i ==> (#[trigger] span@[k]).spec_is_writable(),
            decreases span.len() - i,
        {
            if !span[i].is_writable() {
                return false;
            }
            i = i + 1;
        }
        true
    }
}

/// `[a, b)` and sector `s` share an address.
pub open spec fn intersects(a: int, b: int, s: Sector) -> bool {
    a < s.spec_end() && s.spec_start() < b
}

/// For a nonempty range that intersects some sector, the span is exactly the
/// slice of the map holding the sectors that the range intersects, in
/// address order. One kind of range is left out: one that starts past the
/// one-time-programmable sector, inside the system-memory sector that holds
/// it, and reaches the option bytes; its span takes in the
/// one-time-programmable sector between them.
pub proof fn lemma_span_is_intersecting_slice(a: int, b: int)
    requires
        a < b,
        exists|k: int| 0 <= k < SECTOR_NUMBER && intersects(a, b, #[trigger] spec_sector(k)),
        !(spec_sector(13).spec_end() <= a < spec_sector(12).spec_end() && b > spec_sector(14).spec_start()),
    ensures
        spec_span(a, b) == map_sectors().subrange(span_bounds(a, b).0, span_bounds(a, b).1),
        forall|k: int|
            0 <= k < SECTOR_NUMBER ==> (span_bounds(a, b).0 <= k < span_bounds(a, b).1 <==> intersects(a, b, #[trigger] spec_sector(k))),
        forall|i: int, j: int|
            0 <= i < j < spec_span(a, b).len() ==> (#[trigger] spec_span(a, b)[i]).spec_start() < (#[trigger] spec_span(a, b)[j]).spec_start(),
{
    assert forall|k: int| 0 <= k < SECTOR_NUMBER implies (spec_overlaps(a, b, #[trigger] spec_sector(k)) <==> intersects(a, b, spec_sector(k))) by {
        lemma_sector_facts(k);
    }
    lemma_span_bounds(a, b);
    let (lo, hi) = span_bounds(a, b);
    assert forall|k: int| 0 <= k < SECTOR_NUMBER implies (lo <= k < hi <==> intersects(a, b, #[trigger] spec_sector(k))) by {
        if lo < k < hi - 1 {
            lemma_sorted(lo, k);
            lemma_sorted(k, hi - 1);
            lemma_sector_facts(k);
            lemma_sector_facts(lo);
            if lo == 12 {
                assert(k == 13 && hi - 1 == 14);
            }
        }
    }
    assert forall|i: int, j: int| 0 <= i < j < spec_span(a, b).len() implies (#[trigger] spec_span(a, b)[i]).spec_start() < (#[trigger] spec_span(a, b)[j]).spec_start() by {
        lemma_sorted(lo + i, lo + j);
    }
}

/// A nonempty range that meets no sector spans the first sector of the map
/// alone, which is not writable.
pub proof fn lemma_span_fallback(a: int, b: int)
    requires
        a < b,
        forall|k: int| 0 <= k < SECTOR_NUMBER ==> !intersects(a, b, #[trigger] spec_sector(k)),
    ensures
        spec_span(a, b) == map_sectors().subrange(0, 1),
        !spec_span_writable(a, b),
{
    assert forall|k: int| 0 <= k < SECTOR_NUMBER implies !spec_overlaps(a, b, #[trigger] spec_sector(k)) by {
        lemma_sector_facts(k);
    }
    lemma_span_bounds(a, b);
    lemma_sector_facts(0);
    assert(spec_span(a, b)[0] == spec_sector(0));
}

} // verus!
