//! Decomposition of a byte range into sector-local pieces.
use vstd::prelude::*;

use crate::address::Address;
use crate::memory_map::{lemma_sector_facts, map_sectors, spec_sector, MemoryMap, Sector, SECTOR_NUMBER};

verus! {

/// The part of a write that lands in one sector: the bytes, the sector, and
/// the absolute address of the first byte.
#[derive(Debug)]
pub struct Overlap {
    pub block: Vec<u8>,
    pub sector: Sector,
    pub address: Address,
}

impl View for Overlap {
    type V = (Seq<u8>, Sector, int);

    open spec fn view(&self) -> (Seq<u8>, Sector, int) {
        (self.block@, self.sector, self.address.0 as int)
    }
}

/// Offsets, relative to the start `a` of a write of `n` bytes, of the part of
/// the write that falls in sector `s`; it is empty when the first is not
/// below the second.
pub open spec fn piece_offsets(s: Sector, a: int, n: int) -> (int, int) {
    let lo = if s.spec_start() > a { s.spec_start() - a } else { 0 };
    let hi = if s.spec_end() - a < n { s.spec_end() - a } else { n };
    (lo, hi)
}

/// Some byte of the write lands in sector `s`.
pub open spec fn touches(s: Sector, a: int, n: int) -> bool {
    piece_offsets(s, a, n).0 < piece_offsets(s, a, n).1
}

/// The piece of the write of `bytes` at `a` that lands in `s`.
pub open spec fn piece(s: Sector, a: int, bytes: Seq<u8>) -> (Seq<u8>, Sector, int) {
    let (lo, hi) = piece_offsets(s, a, bytes.len() as int);
    (bytes.subrange(lo, hi), s, a + lo)
}

/// The pieces of the write of `bytes` at `a` in the first `i` sectors of the
/// map, in map order.
pub open spec fn pieces_upto(bytes: Seq<u8>, a: int, i: int) -> Seq<(Seq<u8>, Sector, int)>
    decreases i,
{
    if i <= 0 {
        Seq::empty()
    } else if touches(spec_sector(i - 1), a, bytes.len() as int) {
        pieces_upto(bytes, a, i - 1).push(piece(spec_sector(i - 1), a, bytes))
    } else {
        pieces_upto(bytes, a, i - 1)
    }
}

/// The pieces of the write of `bytes` at `a`, one per sector touched, in map
/// order.
pub open spec fn spec_overlaps(bytes: Seq<u8>, a: int) -> Seq<(Seq<u8>, Sector, int)> {
    pieces_upto(bytes, a, SECTOR_NUMBER as int)
}

/// A copy of `bytes[lo..hi]`.
fn copy_range(bytes: &[u8], lo: usize, hi: usize) -> (r: Vec<u8>)
    requires
        lo <= hi <= bytes@.len(),
    ensures
        r@ == bytes@.subrange(lo as int, hi as int),
{
    let mut r: Vec<u8> = Vec::with_capacity(hi - lo);
    let mut i: usize = lo;
    while i < hi
        invariant
            lo <= i <= hi <= bytes@.len(),
            r@ == bytes@.subrange(lo as int, i as int),
        decreases hi - i,
    {
        r.push(bytes[i]);
        i = i + 1;
        assert(r@ =~= bytes@.subrange(lo as int, i as int));
    }
    r
}

/// Splits the write of `bytes` at `address` into one piece per sector of the
/// map that it touches, in map order: the bytes landing in that sector, the
/// sector, and the absolute address of the first of them.
pub fn overlaps(bytes: &[u8], address: Address) -> (r: Vec<Overlap>)
    ensures
        r@.len() == spec_overlaps(bytes@, address.0 as int).len(),
        forall|k: int| 0 <= k < r@.len() ==> (#[trigger] r@[k])@ == spec_overlaps(bytes@, address.0 as int)[k],
{
    let ghost a = address.0 as int;
    let n = bytes.len();
    let sectors = MemoryMap::sectors();
    let mut r: Vec<Overlap> = Vec::new();
    let mut i: usize = 0;
    while i < sectors.len()
        invariant
            sectors@ == map_sectors(),
            i <= SECTOR_NUMBER,
            a == address.0,
            n == bytes@.len(),
            r@.len() == pieces_upto(bytes@, a, i as int).len(),
            forall|k: int| 0 <= k < r@.len() ==> (#[trigger] r@[k])@ == pieces_upto(bytes@, a, i as int)[k],
        decreases SECTOR_NUMBER - i,
    {
        let s = sectors[i];
        proof { lemma_sector_facts(i as int); }
        let start = s.start().0;
        let end = s.end().0;
        let lo: usize = if start > address.0 { (start - address.0) as usize } else { 0 };
        let hi: usize = if end > address.0 && ((end - address.0) as usize) < n {
            (end - address.0) as usize
        } else if end > address.0 {
            n
        } else {
            0
        };
        assert(lo as int == piece_offsets(s, a, n as int).0);
        assert(hi < lo || hi as int == piece_offsets(s, a, n as int).1 || (piece_offsets(s, a, n as int).1 <= 0 && hi == 0));
        if lo < hi {
            let block = copy_range(bytes, lo, hi);
            let piece_address = Address(address.0 + lo as u32);
            let ghost old_r = r@;
            r.push(Overlap { block, sector: s, address: piece_address });
            proof {
                assert(r@[r@.len() - 1]@ == piece(s, a, bytes@));
                assert forall|k: int| 0 <= k < r@.len() implies (#[trigger] r@[k])@ == pieces_upto(bytes@, a, i + 1)[k] by {
                    if k < old_r.len() {
                        assert(r@[k] == old_r[k]);
                    }
                }
            }
        }
        i = i + 1;
    }
    r
}

} // verus!
