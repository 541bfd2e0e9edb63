//! The write/erase engine of the internal flash controller.
//!
//! The controller owns the peripheral handle but never touches registers or
//! memory itself: each method decides, from plain values that the caller
//! reads from the hardware (the busy flag, a sector's current content), what
//! the peripheral is to do next, or that the caller must try again.
use vstd::prelude::*;

use crate::address::{saturated_add, Address};
use crate::memory_map::{
    lemma_map_bounds, lemma_map_is_sound, lemma_sector_facts, lemma_sorted, lemma_span_bounds, map_sectors,
    sector_number, spec_overlaps, spec_sector, spec_span, spec_span_writable, spec_writable_end,
    spec_writable_start, MemoryMap, Range, Sector, SECTOR_NUMBER,
};
use crate::nor::{
    erased, is_bitwise_subset, lemma_program_erased, lemma_program_subset, overlaid, programmed, read,
    run_op, run_ops, FlashOp,
};
use crate::overlap::{
    overlaps, piece, piece_offsets, pieces_upto, spec_overlaps as spec_pieces, touches, Overlap,
};

verus! {

#[derive(Copy, Clone, Debug, PartialEq, Eq, Structural)]
pub enum Error {
    MemoryNotReachable,
    MisalignedAccess,
}

/// First word of the key sequence that unlocks programming.
pub const UNLOCK_KEY_FIRST: u32 = 0x4567_0123;

/// Second word of the key sequence that unlocks programming.
pub const UNLOCK_KEY_SECOND: u32 = 0xCDEF_89AB;

/// A privileged operation that a write asks of the peripheral.
#[derive(Debug)]
pub enum Operation {
    /// Erase a whole sector.
    Erase(Sector),
    /// Program `bytes` from `address`, which lies in `sector`.
    Program { sector: Sector, address: Address, bytes: Vec<u8> },
}

impl View for Operation {
    type V = FlashOp;

    open spec fn view(&self) -> FlashOp {
        match self {
            Operation::Erase(s) => FlashOp::Erase(*s),
            Operation::Program { address, bytes, .. } => FlashOp::Program(address.0 as int, bytes@),
        }
    }
}

/// `[a, a + n)` lies in the writable area and starts before its end.
pub open spec fn reachable(a: int, n: int) -> bool {
    spec_writable_start() <= a && a < spec_writable_end() && a + n <= spec_writable_end()
}

/// `data` with `block` stored from `offset`.
pub open spec fn merged(data: Seq<u8>, offset: int, block: Seq<u8>) -> Seq<u8> {
    Seq::new(data.len(), |i: int| if offset <= i < offset + block.len() { block[i - offset] } else { data[i] })
}

/// What writing `piece` takes, given the current content `data` of its
/// sector: a direct program when the piece only clears bits of what is
/// stored, otherwise an erase of the sector and a program of its whole
/// content with the piece stored in it.
pub open spec fn spec_sector_write(piece: (Seq<u8>, Sector, int), data: Seq<u8>) -> Seq<FlashOp> {
    let (block, s, address) = piece;
    let offset = address - s.spec_start();
    if is_bitwise_subset(block, data.subrange(offset, s.size as int)) {
        seq![FlashOp::Program(address, block)]
    } else {
        seq![FlashOp::Erase(s), FlashOp::Program(s.spec_start(), merged(data, offset, block))]
    }
}

/// `[address, address + n)` does not lie inside sector `s`.
pub open spec fn outside_sector(address: int, n: int, s: Sector) -> bool {
    address < s.spec_start() || address + n > s.spec_end()
}

/// The `k`-th byte, least significant first, of `w`.
pub open spec fn le_byte(w: u32, k: int) -> u8 {
    if k == 0 {
        (w & 0xFF) as u8
    } else if k == 1 {
        ((w >> 8) & 0xFF) as u8
    } else if k == 2 {
        ((w >> 16) & 0xFF) as u8
    } else {
        ((w >> 24) & 0xFF) as u8
    }
}

/// The bytes that programming `words` writes, in address order.
pub open spec fn word_bytes(words: Seq<u32>) -> Seq<u8> {
    Seq::new(4 * words.len(), |i: int| le_byte(words[i / 4], i % 4))
}

/// `bytes` filled up with `0xFF` to a whole number of words; programming a
/// `0xFF` byte leaves the flash as it is.
pub open spec fn padded(bytes: Seq<u8>) -> Seq<u8> {
    let n = bytes.len() as int;
    let words = if n % 4 == 0 { n / 4 } else { n / 4 + 1 };
    Seq::new((4 * words) as nat, |i: int| if i < n { bytes[i] } else { 0xFFu8 })
}

proof fn lemma_le_bytes(b0: u8, b1: u8, b2: u8, b3: u8)
    ensures
        le_byte(b0 as u32 | (b1 as u32) << 8 | (b2 as u32) << 16 | (b3 as u32) << 24, 0) == b0,
        le_byte(b0 as u32 | (b1 as u32) << 8 | (b2 as u32) << 16 | (b3 as u32) << 24, 1) == b1,
        le_byte(b0 as u32 | (b1 as u32) << 8 | (b2 as u32) << 16 | (b3 as u32) << 24, 2) == b2,
        le_byte(b0 as u32 | (b1 as u32) << 8 | (b2 as u32) << 16 | (b3 as u32) << 24, 3) == b3,
{
    let w = b0 as u32 | (b1 as u32) << 8 | (b2 as u32) << 16 | (b3 as u32) << 24;
    assert((w & 0xFF) as u8 == b0) by (bit_vector)
        requires w == b0 as u32 | (b1 as u32) << 8 | (b2 as u32) << 16 | (b3 as u32) << 24;
    assert(((w >> 8) & 0xFF) as u8 == b1) by (bit_vector)
        requires w == b0 as u32 | (b1 as u32) << 8 | (b2 as u32) << 16 | (b3 as u32) << 24;
    assert(((w >> 16) & 0xFF) as u8 == b2) by (bit_vector)
        requires w == b0 as u32 | (b1 as u32) << 8 | (b2 as u32) << 16 | (b3 as u32) << 24;
    assert(((w >> 24) & 0xFF) as u8 == b3) by (bit_vector)
        requires w == b0 as u32 | (b1 as u32) << 8 | (b2 as u32) << 16 | (b3 as u32) << 24;
}

/// For a range that starts at or below its end, the span test together with
/// the bound at the end of the writable area says exactly that the range
/// lies in the writable area.
pub proof fn lemma_reachable(a: int, b: int)
    requires
        0 <= a <= b <= u32::MAX,
    ensures
        (spec_span_writable(a, b) && b <= spec_writable_end()) <==> reachable(a, b - a),
{
    lemma_map_bounds();
    lemma_span_bounds(a, b);
    let first = (spec_span(a, b))[0];
    assert(spec_span(a, b)[0] == spec_sector(crate::memory_map::span_bounds(a, b).0));
    if reachable(a, b - a) {
        // The sector holding `a` is overlapped, and only writable sectors are.
        assert forall|k: int| 0 <= k < SECTOR_NUMBER && spec_overlaps(a, b, #[trigger] spec_sector(k)) implies 4 <= k < 12 by {
            lemma_sector_facts(k);
        }
        let k: int = if a < 0x0802_0000 { 4 } else if a < 0x0804_0000 { 5 } else if a < 0x0806_0000 { 6 }
            else if a < 0x0808_0000 { 7 } else if a < 0x080A_0000 { 8 } else if a < 0x080C_0000 { 9 }
            else if a < 0x080E_0000 { 10 } else { 11 };
        assert(spec_overlaps(a, b, spec_sector(k)));
        let (lo, hi) = crate::memory_map::span_bounds(a, b);
        assert forall|i: int| 0 <= i < spec_span(a, b).len() implies (#[trigger] spec_span(a, b)[i]).spec_is_writable() by {
            assert(spec_span(a, b)[i] == spec_sector(lo + i));
            if lo + i < hi - 1 {
                lemma_sector_facts(lo + i);
                lemma_sector_facts(lo);
                lemma_sector_facts(hi - 1);
            } else {
                lemma_sector_facts(lo + i);
            }
        }
    } else if b <= spec_writable_end() {
        if a < 0x0800_0000 && b <= 0x0800_0000 {
            // Nothing is overlapped: the span falls back to the first sector.
            assert forall|k: int| 0 <= k < SECTOR_NUMBER implies !spec_overlaps(a, b, #[trigger] spec_sector(k)) by {
                lemma_sector_facts(k);
            }
            lemma_sector_facts(0);
        } else if a < 0x0800_0000 {
            lemma_sector_facts(0);
            assert(spec_overlaps(a, b, spec_sector(0)));
        } else if a < 0x0801_0000 {
            let k: int = if a < 0x0800_4000 { 0 } else if a < 0x0800_8000 { 1 } else if a < 0x0800_C000 { 2 } else { 3 };
            assert(spec_overlaps(a, b, spec_sector(k)));
            lemma_sector_facts(crate::memory_map::span_bounds(a, b).0);
        } else {
            assert forall|k: int| 0 <= k < SECTOR_NUMBER implies !spec_overlaps(a, b, #[trigger] spec_sector(k)) by {
                lemma_sector_facts(k);
            }
            lemma_sector_facts(0);
        }
        assert(!first.spec_is_writable());
    }
}

/// The writable sectors among the first `i` of the map, in map order.
pub open spec fn writable_upto(i: int) -> Seq<Sector>
    decreases i,
{
    if i <= 0 {
        Seq::empty()
    } else if spec_sector(i - 1).spec_is_writable() {
        writable_upto(i - 1).push(spec_sector(i - 1))
    } else {
        writable_upto(i - 1)
    }
}

/// Controller of the internal flash. It owns the peripheral handle `F` for
/// its whole lifetime.
pub struct McuFlash<F> {
    flash: F,
}

impl<F> McuFlash<F> {
    pub closed spec fn handle(&self) -> F {
        self.flash
    }

    /// Takes ownership of the peripheral, after checking that the memory map
    /// is sound (which the fixed map is, so this never fails).
    pub fn new(flash: F) -> (r: Result<Self, Error>)
        ensures
            r matches Ok(f) && f.handle() == flash,
    {
        let map = MemoryMap::new();
        proof {
            lemma_map_is_sound();
            assert forall|i: int| 0 <= i < map@.len() implies (#[trigger] map@[i]).wf() by {
                lemma_sector_facts(i);
            }
        }
        let sound = map.is_sound();
        if sound {
            Ok(McuFlash { flash })
        } else {
            Err(Error::MemoryNotReachable)
        }
    }

    /// The peripheral, for the caller to carry out what the controller
    /// decided.
    pub fn peripheral(&mut self) -> (r: &mut F)
        ensures
            *r == old(self).handle(),
            final(self).handle() == *final(r),
    {
        &mut self.flash
    }

    /// Bounds of the writable area, `[start, end)`.
    pub fn range(&self) -> (r: (Address, Address))
        ensures
            r.0.0 == spec_writable_start(),
            r.1.0 == spec_writable_end(),
    {
        (MemoryMap::writable_start(), MemoryMap::writable_end())
    }

    /// The key sequence to write, in order, to unlock programming; the
    /// caller must try again while the peripheral is busy.
    pub fn unlock(&self, busy: bool) -> (r: nb::Result<[u32; 2], Error>)
        ensures
            busy ==> r matches Err(nb::Error::WouldBlock),
            !busy ==> (r matches Ok(keys) && keys@ == seq![UNLOCK_KEY_FIRST, UNLOCK_KEY_SECOND]),
    {
        if busy {
            return Err(nb::Error::WouldBlock);
        }
        Ok([UNLOCK_KEY_FIRST, UNLOCK_KEY_SECOND])
    }

    /// The erase index of `sector`, to start its erase with.
    pub fn erase(&self, sector: &Sector, busy: bool) -> (r: nb::Result<u8, Error>)
        ensures
            sector_number(*sector) is None ==> r matches Err(nb::Error::Other(Error::MemoryNotReachable)),
            sector_number(*sector) is Some && busy ==> r matches Err(nb::Error::WouldBlock),
            sector_number(*sector) is Some && !busy ==> r == Ok::<u8, nb::Error<Error>>(sector_number(*sector)->0),
    {
        let number = match sector.number() {
            Some(n) => n,
            None => return Err(nb::Error::Other(Error::MemoryNotReachable)),
        };
        match self.unlock(busy) {
            Ok(_) => Ok(number),
            Err(e) => Err(e),
        }
    }

    /// The words to program, in order from `address`, for writing `bytes`
    /// there; the last word is filled up with `0xFF`, which leaves the bytes
    /// after the write as they are.
    pub fn write_bytes(&self, bytes: &[u8], sector: &Sector, address: Address, busy: bool) -> (r: nb::Result<Vec<u32>, Error>)
        requires
            sector.wf(),
        ensures
            outside_sector(address.0 as int, bytes@.len() as int, *sector)
                ==> r matches Err(nb::Error::Other(Error::MisalignedAccess)),
            !outside_sector(address.0 as int, bytes@.len() as int, *sector) && busy ==> r matches Err(nb::Error::WouldBlock),
            !outside_sector(address.0 as int, bytes@.len() as int, *sector) && !busy
                ==> (r matches Ok(words) && word_bytes(words@) == padded(bytes@)),
    {
        if address.0 < sector.start().0 || address.0 > sector.end().0
            || bytes.len() > (sector.end().0 - address.0) as usize {
            return Err(nb::Error::Other(Error::MisalignedAccess));
        }
        if busy {
            return Err(nb::Error::WouldBlock);
        }
        let n = bytes.len();
        let mut words: Vec<u32> = Vec::new();
        let mut i: usize = 0;
        while i < n
            invariant
                n == bytes@.len(),
                i <= n,
                i < n ==> i == 4 * words@.len(),
                i == n ==> 4 * words@.len() == padded(bytes@).len(),
                4 * words@.len() <= padded(bytes@).len(),
                forall|k: int| 0 <= k < 4 * words@.len() ==> #[trigger] word_bytes(words@)[k] == padded(bytes@)[k],
            decreases n - i,
        {
            let rest = n - i;
            let b0 = bytes[i];
            let b1 = if rest > 1 { bytes[i + 1] } else { 0xFF };
            let b2 = if rest > 2 { bytes[i + 2] } else { 0xFF };
            let b3 = if rest > 3 { bytes[i + 3] } else { 0xFF };
            let word = b0 as u32 | (b1 as u32) << 8 | (b2 as u32) << 16 | (b3 as u32) << 24;
            proof { lemma_le_bytes(b0, b1, b2, b3); }
            let ghost old_words = words@;
            words.push(word);
            proof {
                assert(4 * words@.len() <= padded(bytes@).len());
                assert forall|k: int| 0 <= k < i + 4 implies #[trigger] word_bytes(words@)[k] == padded(bytes@)[k] by {
                    if k < i {
                        assert(word_bytes(words@)[k] == word_bytes(old_words)[k]);
                    } else {
                        assert(k / 4 == i / 4);
                    }
                }
            }
            if rest <= 4 {
                assert(4 * words@.len() == padded(bytes@).len());
                i = n;
            } else {
                i = i + 4;
            }
        }
        proof {
            assert(word_bytes(words@) =~= padded(bytes@));
        }
        Ok(words)
    }

    /// The writable sectors, which erasing the device erases one by one;
    /// the other sectors are never erased this way.
    pub fn writable_sectors(&self) -> (r: Vec<Sector>)
        ensures
            r@ == writable_upto(SECTOR_NUMBER as int),
    {
        let sectors = MemoryMap::sectors();
        let mut r: Vec<Sector> = Vec::new();
        let mut i: usize = 0;
        while i < sectors.len()
            invariant
                sectors@ == map_sectors(),
                i <= SECTOR_NUMBER,
                r@ == writable_upto(i as int),
            decreases SECTOR_NUMBER - i,
        {
            if sectors[i].is_writable() {
                r.push(sectors[i]);
            }
            i = i + 1;
        }
        r
    }

    /// Validates a write of `bytes` at `address` and splits it into the
    /// pieces that land in each sector, in address order.
    pub fn write(&self, address: Address, bytes: &[u8], busy: bool) -> (r: nb::Result<Vec<Overlap>, Error>)
        ensures
            address.0 % 4 != 0 ==> r matches Err(nb::Error::Other(Error::MisalignedAccess)),
            address.0 % 4 == 0 && !reachable(address.0 as int, bytes@.len() as int)
                ==> r matches Err(nb::Error::Other(Error::MemoryNotReachable)),
            address.0 % 4 == 0 && reachable(address.0 as int, bytes@.len() as int) && busy
                ==> r matches Err(nb::Error::WouldBlock),
            address.0 % 4 == 0 && reachable(address.0 as int, bytes@.len() as int) && !busy ==> (r matches Ok(pieces) && {
                &&& pieces@.len() == spec_pieces(bytes@, address.0 as int).len()
                &&& forall|k: int| 0 <= k < pieces@.len() ==> (#[trigger] pieces@[k])@ == spec_pieces(bytes@, address.0 as int)[k]
            }),
    {
        if address.0 % 4 != 0 {
            return Err(nb::Error::Other(Error::MisalignedAccess));
        }
        if !self.is_reachable(address, bytes.len()) {
            return Err(nb::Error::Other(Error::MemoryNotReachable));
        }
        // Early yield if busy
        if busy {
            return Err(nb::Error::WouldBlock);
        }
        Ok(overlaps(bytes, address))
    }

    /// `[address, address + len)` lies in the writable area: every sector it
    /// spans is writable, and it ends by the end of the writable area, which
    /// the span alone does not bound when unmapped addresses follow it.
    fn is_reachable(&self, address: Address, len: usize) -> (r: bool)
        ensures
            r == reachable(address.0 as int, len as int),
    {
        let end = address.add(len);
        let r = Range(address, end).is_writable() && end.0 <= MemoryMap::writable_end().0;
        proof {
            lemma_map_bounds();
            lemma_reachable(address.0 as int, end.0 as int);
        }
        r
    }

    /// What writing `piece` takes, given the current content `sector_data`
    /// of its sector: one program when the piece only clears bits; otherwise
    /// an erase of the sector, then a program of its whole content with the
    /// piece stored in it.
    pub fn sector_write(&self, piece: &Overlap, sector_data: &[u8]) -> (r: Vec<Operation>)
        requires
            piece.sector.wf(),
            sector_data@.len() == piece.sector.size,
            piece.sector.spec_start() <= piece.address.0,
            piece.address.0 + piece.block@.len() <= piece.sector.spec_end(),
        ensures
            r@.len() == spec_sector_write(piece@, sector_data@).len(),
            forall|k: int| 0 <= k < r@.len() ==> (#[trigger] r@[k])@ == spec_sector_write(piece@, sector_data@)[k],
            forall|k: int| 0 <= k < r@.len() ==> ((#[trigger] r@[k]) matches Operation::Program { sector, .. } ==> sector == piece.sector),
    {
        let sector = piece.sector;
        let offset = piece.address.bytes_since(sector.start());
        let block = &piece.block;
        let n = block.len();
        // Programming can only clear bits: the piece needs no erase when
        // every 1 bit of it is a 1 bit of what is stored.
        let m = sector_data.len();
        let mut subset = true;
        let mut i: usize = 0;
        while i < n
            invariant
                n == block@.len(),
                m == sector_data@.len(),
                offset + n <= sector_data@.len(),
                i <= n,
                subset == (forall|k: int| 0 <= k < i ==> #[trigger] (block@[k] & sector_data@[offset + k]) == block@[k]),
            decreases n - i,
        {
            assert(offset + i < sector_data@.len());
            if block[i] & sector_data[offset + i] != block[i] {
                subset = false;
            }
            i = i + 1;
        }
        let ghost existing = sector_data@.subrange(offset as int, sector.size as int);
        assert(subset == is_bitwise_subset(block@, existing)) by {
            if subset {
                assert forall|k: int| 0 <= k < block@.len() implies crate::nor::byte_subset(#[trigger] block@[k], existing[k]) by {
                    assert(existing[k] == sector_data@[offset + k]);
                    assert(block@[k] & sector_data@[offset + k] == block@[k]);
                }
            } else {
                let k = choose|k: int| 0 <= k < n && !(#[trigger] (block@[k] & sector_data@[offset + k]) == block@[k]);
                assert(existing[k] == sector_data@[offset + k]);
            }
        }
        let mut r: Vec<Operation> = Vec::new();
        if subset {
            r.push(Operation::Program { sector, address: piece.address, bytes: block.clone() });
            assert(r@[0]@ == spec_sector_write(piece@, sector_data@)[0]);
        } else {
            // Erase, then write back what was stored with the piece laid over it.
            let mut data: Vec<u8> = Vec::with_capacity(sector_data.len());
            let mut j: usize = 0;
            while j < sector_data.len()
                invariant
                    n == block@.len(),
                    offset + n <= sector_data@.len(),
                    j <= sector_data@.len(),
                    data@ == merged(sector_data@, offset as int, block@).subrange(0, j as int),
                decreases sector_data@.len() - j,
            {
                if offset <= j && j < offset + n {
                    data.push(block[j - offset]);
                } else {
                    data.push(sector_data[j]);
                }
                j = j + 1;
                assert(data@ =~= merged(sector_data@, offset as int, block@).subrange(0, j as int));
            }
            assert(data@ =~= merged(sector_data@, offset as int, block@));
            r.push(Operation::Erase(sector));
            r.push(Operation::Program { sector, address: sector.start(), bytes: data });
            assert(r@[0]@ == spec_sector_write(piece@, sector_data@)[0]);
            assert(r@[1]@ == spec_sector_write(piece@, sector_data@)[1]);
        }
        r
    }

    /// Validates a read of `len` bytes at `address`, which the caller then
    /// copies from memory-mapped flash.
    pub fn read(&self, address: Address, len: usize) -> (r: Result<(), Error>)
        ensures
            r matches Ok(_) <==> reachable(address.0 as int, len as int),
            r matches Err(e) ==> e == Error::MemoryNotReachable,
    {
        if !self.is_reachable(address, len) {
            Err(Error::MemoryNotReachable)
        } else {
            Ok(())
        }
    }

    /// A human-readable name of this driver.
    pub fn label() -> (r: &'static str)
        ensures
            r@ == "stm32f4 flash (Internal)"@,
    {
        "stm32f4 flash (Internal)"
    }
}

/// The content after a write made of `pieces`, in order, each carried out
/// as the controller decides from the content of its sector at that time.
pub open spec fn run_write(mem: spec_fn(int) -> u8, pieces: Seq<(Seq<u8>, Sector, int)>) -> spec_fn(int) -> u8
    decreases pieces.len(),
{
    if pieces.len() == 0 {
        mem
    } else {
        let m = run_write(mem, pieces.drop_last());
        let p = pieces.last();
        run_ops(m, spec_sector_write(p, read(m, p.1.spec_start(), p.1.size as nat)))
    }
}

/// A write of one piece inside its sector, decided from the sector's
/// current content, leaves the piece's bytes at its address and every other
/// byte as it was, whether it took a direct program or an erase and rewrite.
pub proof fn lemma_sector_write_effect(mem: spec_fn(int) -> u8, block: Seq<u8>, s: Sector, address: int)
    requires
        s.wf(),
        s.spec_start() <= address,
        address + block.len() <= s.spec_end(),
    ensures
        forall|x: int|
            #[trigger] run_ops(mem, spec_sector_write((block, s, address), read(mem, s.spec_start(), s.size as nat)))(x)
                == overlaid(mem, address, block)(x),
{
    let data = read(mem, s.spec_start(), s.size as nat);
    let ops = spec_sector_write((block, s, address), data);
    let offset = address - s.spec_start();
    let existing = data.subrange(offset, s.size as int);
    if is_bitwise_subset(block, existing) {
        assert(ops.drop_last() =~= Seq::<FlashOp>::empty());
        assert(run_ops(mem, ops.drop_last()) == mem);
        assert(run_ops(mem, ops) == programmed(mem, address, block));
        assert forall|x: int| #[trigger] run_ops(mem, ops)(x) == overlaid(mem, address, block)(x) by {
            if address <= x < address + block.len() {
                let i = x - address;
                assert(existing[i] == mem(x));
                lemma_program_subset(block[i], existing[i]);
            }
        }
    } else {
        let m = merged(data, offset, block);
        assert(ops.drop_last().drop_last() =~= Seq::<FlashOp>::empty());
        assert(ops.drop_last() =~= seq![FlashOp::Erase(s)]);
        assert(run_ops(mem, ops.drop_last().drop_last()) == mem);
        assert(run_ops(mem, ops.drop_last()) == erased(mem, s));
        assert(run_ops(mem, ops) == programmed(erased(mem, s), s.spec_start(), m));
        assert forall|x: int| #[trigger] run_ops(mem, ops)(x) == overlaid(mem, address, block)(x) by {
            if s.spec_contains(x) {
                lemma_program_erased(m[x - s.spec_start()]);
            }
        }
    }
}

/// Where `[a, a + bytes.len())` lies in the writable area: the pieces in the
/// first `i` sectors store the bytes that fall below the end of those
/// sectors, and nothing else.
proof fn lemma_write_prefix(mem: spec_fn(int) -> u8, bytes: Seq<u8>, a: int, i: int)
    requires
        reachable(a, bytes.len() as int),
        0 <= i <= 12,
    ensures
        forall|x: int|
            #[trigger] run_write(mem, pieces_upto(bytes, a, i))(x) == if a <= x < a + bytes.len() && x < (if i == 0 {
                0x0800_0000
            } else {
                spec_sector(i - 1).spec_end()
            }) {
                bytes[x - a]
            } else {
                mem(x)
            },
    decreases i,
{
    lemma_map_bounds();
    if i > 0 {
        lemma_write_prefix(mem, bytes, a, i - 1);
        let s = spec_sector(i - 1);
        lemma_sector_facts(i - 1);
        if i > 1 {
            lemma_sector_facts(i - 2);
        }
        let n = bytes.len() as int;
        let prev = pieces_upto(bytes, a, i - 1);
        let m = run_write(mem, prev);
        if touches(s, a, n) {
            let p = piece(s, a, bytes);
            let (lo, hi) = piece_offsets(s, a, n);
            assert(pieces_upto(bytes, a, i) == prev.push(p));
            assert(prev.push(p).drop_last() =~= prev);
            lemma_sector_write_effect(m, p.0, s, p.2);
            assert forall|x: int| #[trigger] run_write(mem, pieces_upto(bytes, a, i))(x)
                == overlaid(m, a + lo, bytes.subrange(lo, hi))(x) by {
                assert(run_write(mem, prev.push(p)) == run_ops(m, spec_sector_write(p, read(m, s.spec_start(), s.size as nat))));
            }
        }
    }
}

/// Writing `bytes` at an address of the writable area, one sector after
/// another in address order, stores exactly `bytes` there and keeps every
/// other byte, and reading the range back gives `bytes`.
pub proof fn lemma_write_round_trip(mem: spec_fn(int) -> u8, bytes: Seq<u8>, a: int)
    requires
        reachable(a, bytes.len() as int),
    ensures
        forall|x: int| #[trigger] run_write(mem, spec_pieces(bytes, a))(x) == overlaid(mem, a, bytes)(x),
        read(run_write(mem, spec_pieces(bytes, a)), a, bytes.len()) == bytes,
{
    lemma_map_bounds();
    lemma_write_prefix(mem, bytes, a, 12);
    lemma_sector_facts(11);
    lemma_sector_facts(12);
    lemma_sector_facts(13);
    lemma_sector_facts(14);
    assert(pieces_upto(bytes, a, 13) == pieces_upto(bytes, a, 12));
    assert(pieces_upto(bytes, a, 14) == pieces_upto(bytes, a, 13));
    assert(pieces_upto(bytes, a, 15) == pieces_upto(bytes, a, 14));
    assert(spec_pieces(bytes, a) == pieces_upto(bytes, a, 12));
    let r = run_write(mem, spec_pieces(bytes, a));
    assert(read(r, a, bytes.len()) =~= bytes);
}

/// How many erases `ops` holds.
pub open spec fn erase_count(ops: Seq<FlashOp>) -> nat
    decreases ops.len(),
{
    if ops.len() == 0 {
        0
    } else {
        erase_count(ops.drop_last()) + if ops.last() is Erase { 1nat } else { 0nat }
    }
}

/// A piece that only clears bits of what its sector holds at its offset is
/// written without an erase; any other piece costs exactly one erase, of its
/// own sector, before the rewrite.
pub proof fn lemma_erase_avoidance(block: Seq<u8>, s: Sector, address: int, data: Seq<u8>)
    ensures
        is_bitwise_subset(block, data.subrange(address - s.spec_start(), s.size as int))
            ==> erase_count(spec_sector_write((block, s, address), data)) == 0,
        !is_bitwise_subset(block, data.subrange(address - s.spec_start(), s.size as int)) ==> {
            &&& erase_count(spec_sector_write((block, s, address), data)) == 1
            &&& spec_sector_write((block, s, address), data)[0] == FlashOp::Erase(s)
        },
{
    let ops = spec_sector_write((block, s, address), data);
    if is_bitwise_subset(block, data.subrange(address - s.spec_start(), s.size as int)) {
        assert(ops.drop_last() =~= Seq::<FlashOp>::empty());
        assert(erase_count(ops.drop_last()) == 0);
    } else {
        let e = seq![FlashOp::Erase(s)];
        assert(ops.drop_last() =~= e);
        assert(e.drop_last() =~= Seq::<FlashOp>::empty());
        assert(erase_count(e.drop_last()) == 0);
        assert(erase_count(e) == 1);
    }
}

/// Each piece of a write into the writable area is nonempty and lies inside
/// its sector, which is writable, and the pieces follow one another in
/// address order without sharing a byte; so each can be written as a
/// sector-local write of its own.
pub proof fn lemma_pieces_in_sectors(bytes: Seq<u8>, a: int)
    requires
        reachable(a, bytes.len() as int),
    ensures
        forall|k: int| 0 <= k < spec_pieces(bytes, a).len() ==> {
            let p = #[trigger] spec_pieces(bytes, a)[k];
            &&& p.1.wf()
            &&& p.1.spec_is_writable()
            &&& 0 < p.0.len()
            &&& p.1.spec_start() <= p.2
            &&& p.2 + p.0.len() <= p.1.spec_end()
            &&& p.2 == if p.1.spec_start() > a { p.1.spec_start() } else { a }
        },
        forall|j: int, k: int|
            0 <= j < k < spec_pieces(bytes, a).len() ==> (#[trigger] spec_pieces(bytes, a)[j]).2 + spec_pieces(bytes, a)[j].0.len()
                <= (#[trigger] spec_pieces(bytes, a)[k]).2,
{
    lemma_map_bounds();
    lemma_pieces_prefix(bytes, a, 12);
    lemma_sector_facts(12);
    lemma_sector_facts(13);
    lemma_sector_facts(14);
    assert(pieces_upto(bytes, a, 13) == pieces_upto(bytes, a, 12));
    assert(pieces_upto(bytes, a, 14) == pieces_upto(bytes, a, 13));
    assert(pieces_upto(bytes, a, 15) == pieces_upto(bytes, a, 14));
}

proof fn lemma_pieces_prefix(bytes: Seq<u8>, a: int, i: int)
    requires
        reachable(a, bytes.len() as int),
        0 <= i <= 12,
    ensures
        forall|k: int| 0 <= k < pieces_upto(bytes, a, i).len() ==> {
            let p = #[trigger] pieces_upto(bytes, a, i)[k];
            &&& p.1.wf()
            &&& p.1.spec_is_writable()
            &&& 0 < p.0.len()
            &&& p.1.spec_start() <= p.2
            &&& p.2 + p.0.len() <= p.1.spec_end()
            &&& p.2 == if p.1.spec_start() > a { p.1.spec_start() } else { a }
            &&& p.2 + p.0.len() <= (if i == 0 { 0x0800_0000 } else { spec_sector(i - 1).spec_end() })
        },
        forall|j: int, k: int|
            0 <= j < k < pieces_upto(bytes, a, i).len() ==> (#[trigger] pieces_upto(bytes, a, i)[j]).2 + pieces_upto(bytes, a, i)[j].0.len()
                <= (#[trigger] pieces_upto(bytes, a, i)[k]).2,
    decreases i,
{
    lemma_map_bounds();
    if i > 0 {
        lemma_pieces_prefix(bytes, a, i - 1);
        lemma_sector_facts(i - 1);
        if i > 1 {
            lemma_sector_facts(i - 2);
        }
        let s = spec_sector(i - 1);
        let prev = pieces_upto(bytes, a, i - 1);
        if touches(s, a, bytes.len() as int) {
            let p = piece(s, a, bytes);
            assert(pieces_upto(bytes, a, i) == prev.push(p));
            let ps = prev.push(p);
            assert forall|k: int| 0 <= k < ps.len() implies {
                let q = #[trigger] ps[k];
                &&& q.1.wf()
                &&& q.1.spec_is_writable()
                &&& 0 < q.0.len()
                &&& q.1.spec_start() <= q.2
                &&& q.2 + q.0.len() <= q.1.spec_end()
                &&& q.2 == if q.1.spec_start() > a { q.1.spec_start() } else { a }
                &&& q.2 + q.0.len() <= s.spec_end()
            } by {
                if k < prev.len() {
                    assert(ps[k] == prev[k]);
                }
            }
            assert forall|j: int, k: int| 0 <= j < k < ps.len() implies (#[trigger] ps[j]).2 + ps[j].0.len() <= (#[trigger] ps[k]).2 by {
                assert(ps[j] == prev[j]);
                if k < prev.len() {
                    assert(ps[k] == prev[k]);
                }
            }
        }
    }
}

/// Programming `bytes` filled up with `0xFF` to whole words changes the
/// flash exactly as programming `bytes` alone would.
pub proof fn lemma_padding_keeps_flash(mem: spec_fn(int) -> u8, address: int, bytes: Seq<u8>)
    ensures
        forall|x: int| #[trigger] programmed(mem, address, padded(bytes))(x) == programmed(mem, address, bytes)(x),
{
    assert forall|x: int| #[trigger] programmed(mem, address, padded(bytes))(x) == programmed(mem, address, bytes)(x) by {
        lemma_program_erased(mem(x));
    }
}

proof fn lemma_pieces_single(bytes: Seq<u8>, a: int, k: int, i: int)
    requires
        4 <= k < 12,
        0 <= i <= SECTOR_NUMBER,
        bytes.len() > 0,
        spec_sector(k).spec_start() <= a,
        a + bytes.len() <= spec_sector(k).spec_end(),
    ensures
        pieces_upto(bytes, a, i) == if i <= k {
            Seq::<(Seq<u8>, Sector, int)>::empty()
        } else {
            seq![piece(spec_sector(k), a, bytes)]
        },
    decreases i,
{
    if i > 0 {
        lemma_pieces_single(bytes, a, k, i - 1);
        let j = i - 1;
        lemma_sector_facts(j);
        lemma_sector_facts(k);
        if j < k {
            lemma_sorted(j, k);
        } else if j > k {
            lemma_sorted(k, j);
        }
        if j == k {
            assert(Seq::<(Seq<u8>, Sector, int)>::empty().push(piece(spec_sector(k), a, bytes))
                =~= seq![piece(spec_sector(k), a, bytes)]);
        }
    }
}

/// A nonempty write inside one writable sector is carried out as one piece
/// in that sector. When every 1 bit of the bytes is already a 1 bit of what
/// the flash holds there, the sector is not erased; otherwise it is erased
/// exactly once. Either way the bytes end up at their address and every
/// other byte is kept.
pub proof fn lemma_single_sector_write(mem: spec_fn(int) -> u8, bytes: Seq<u8>, a: int, k: int)
    requires
        0 <= k < SECTOR_NUMBER,
        spec_sector(k).spec_is_writable(),
        bytes.len() > 0,
        spec_sector(k).spec_start() <= a,
        a + bytes.len() <= spec_sector(k).spec_end(),
    ensures
        spec_pieces(bytes, a) == seq![(bytes, spec_sector(k), a)],
        is_bitwise_subset(bytes, read(mem, a, bytes.len())) ==> erase_count(
            spec_sector_write((bytes, spec_sector(k), a), read(mem, spec_sector(k).spec_start(), spec_sector(k).size as nat)),
        ) == 0,
        !is_bitwise_subset(bytes, read(mem, a, bytes.len())) ==> erase_count(
            spec_sector_write((bytes, spec_sector(k), a), read(mem, spec_sector(k).spec_start(), spec_sector(k).size as nat)),
        ) == 1,
        forall|x: int| #[trigger] run_write(mem, spec_pieces(bytes, a))(x) == overlaid(mem, a, bytes)(x),
{
    lemma_sector_facts(k);
    let s = spec_sector(k);
    lemma_pieces_single(bytes, a, k, SECTOR_NUMBER as int);
    assert(bytes.subrange(0, bytes.len() as int) =~= bytes);
    assert(piece(s, a, bytes) == (bytes, s, a));
    let p = (bytes, s, a);
    let ps = seq![p];
    assert(ps.drop_last() =~= Seq::<(Seq<u8>, Sector, int)>::empty());
    assert(run_write(mem, ps.drop_last()) == mem);
    let data = read(mem, s.spec_start(), s.size as nat);
    let existing = data.subrange(a - s.spec_start(), s.size as int);
    let here = read(mem, a, bytes.len());
    assert(is_bitwise_subset(bytes, existing) == is_bitwise_subset(bytes, here)) by {
        assert forall|i: int| 0 <= i < bytes.len() implies existing[i] == here[i] by {}
    }
    lemma_erase_avoidance(bytes, s, a, data);
    lemma_sector_write_effect(mem, bytes, s, a);
}

/// Writing pieces that each lie inside their sector leaves every byte at
/// or above `bound` as it was, when no piece reaches that high.
proof fn lemma_prefix_keeps(mem: spec_fn(int) -> u8, ps: Seq<(Seq<u8>, Sector, int)>, bound: int)
    requires
        forall|j: int| 0 <= j < ps.len() ==> {
            let p = #[trigger] ps[j];
            &&& p.1.wf()
            &&& p.1.spec_start() <= p.2
            &&& p.2 + p.0.len() <= p.1.spec_end()
            &&& p.2 + p.0.len() <= bound
        },
    ensures
        forall|x: int| x >= bound ==> #[trigger] run_write(mem, ps)(x) == mem(x),
    decreases ps.len(),
{
    if ps.len() > 0 {
        let rest = ps.drop_last();
        assert forall|j: int| 0 <= j < rest.len() implies {
            let p = #[trigger] rest[j];
            &&& p.1.wf()
            &&& p.1.spec_start() <= p.2
            &&& p.2 + p.0.len() <= p.1.spec_end()
            &&& p.2 + p.0.len() <= bound
        } by {
            assert(rest[j] == ps[j]);
        }
        lemma_prefix_keeps(mem, rest, bound);
        let p = ps.last();
        assert(p == ps[ps.len() - 1]);
        lemma_sector_write_effect(run_write(mem, rest), p.0, p.1, p.2);
    }
}

/// In a write into the writable area, each sector's piece is decided from
/// the content that sector had before the write, since the pieces before it
/// lie in other sectors. So each spanned sector is erased exactly when its
/// piece sets a bit that is clear in the flash, and then exactly once; and
/// the write as a whole stores the bytes and keeps everything else.
pub proof fn lemma_write_sector_decisions(mem: spec_fn(int) -> u8, bytes: Seq<u8>, a: int)
    requires
        reachable(a, bytes.len() as int),
    ensures
        forall|k: int| 0 <= k < spec_pieces(bytes, a).len() ==> {
            let p = #[trigger] spec_pieces(bytes, a)[k];
            let before = run_write(mem, spec_pieces(bytes, a).subrange(0, k));
            &&& read(before, p.1.spec_start(), p.1.size as nat) == read(mem, p.1.spec_start(), p.1.size as nat)
            &&& erase_count(spec_sector_write(p, read(before, p.1.spec_start(), p.1.size as nat)))
                == if is_bitwise_subset(p.0, read(mem, p.2, p.0.len())) { 0nat } else { 1nat }
        },
        forall|x: int| #[trigger] run_write(mem, spec_pieces(bytes, a))(x) == overlaid(mem, a, bytes)(x),
{
    lemma_pieces_in_sectors(bytes, a);
    lemma_write_round_trip(mem, bytes, a);
    let ps = spec_pieces(bytes, a);
    assert forall|k: int| 0 <= k < ps.len() implies {
        let p = #[trigger] ps[k];
        let before = run_write(mem, ps.subrange(0, k));
        &&& read(before, p.1.spec_start(), p.1.size as nat) == read(mem, p.1.spec_start(), p.1.size as nat)
        &&& erase_count(spec_sector_write(p, read(before, p.1.spec_start(), p.1.size as nat)))
            == if is_bitwise_subset(p.0, read(mem, p.2, p.0.len())) { 0nat } else { 1nat }
    } by {
        let p = ps[k];
        let prefix = ps.subrange(0, k);
        let before = run_write(mem, prefix);
        let s = p.1;
        if k > 0 {
            // A later piece starts past the earlier ones, so at its sector's start.
            assert(ps[0].2 >= a);
            assert(ps[0].2 + ps[0].0.len() <= p.2);
            assert(p.2 == s.spec_start());
            assert forall|j: int| 0 <= j < prefix.len() implies {
                let q = #[trigger] prefix[j];
                &&& q.1.wf()
                &&& q.1.spec_start() <= q.2
                &&& q.2 + q.0.len() <= q.1.spec_end()
                &&& q.2 + q.0.len() <= s.spec_start()
            } by {
                assert(prefix[j] == ps[j]);
            }
            lemma_prefix_keeps(mem, prefix, s.spec_start());
        } else {
            assert(prefix =~= Seq::<(Seq<u8>, Sector, int)>::empty());
        }
        let data = read(before, s.spec_start(), s.size as nat);
        assert(data =~= read(mem, s.spec_start(), s.size as nat)) by {
            assert forall|i: int| 0 <= i < s.size implies #[trigger] data[i] == read(mem, s.spec_start(), s.size as nat)[i] by {
                assert(before(s.spec_start() + i) == mem(s.spec_start() + i));
            }
        }
        let existing = data.subrange(p.2 - s.spec_start(), s.size as int);
        let here = read(mem, p.2, p.0.len());
        assert(is_bitwise_subset(p.0, existing) == is_bitwise_subset(p.0, here)) by {
            assert forall|i: int| 0 <= i < p.0.len() implies existing[i] == here[i] by {}
        }
        lemma_erase_avoidance(p.0, s, p.2, data);
    }
}

} // verus!
