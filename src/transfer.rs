//! Batching of fixed-size blocks into larger transfers, so that the
//! per-sector decisions of a write run once per transfer rather than once
//! per block.
use vstd::prelude::*;

use crate::address::{saturated_add, Address};
use crate::memory_map::KB;
use vstd::arithmetic::div_mod::lemma_fundamental_div_mod;

verus! {

/// Size of one transfer.
pub const TRANSFER_SIZE: usize = 4 * KB;

/// Gathers blocks of `block_size` bytes, meant for consecutive addresses from
/// a start address, into transfers of `TRANSFER_SIZE` bytes.
pub struct TransferBuffer {
    next: Address,
    block_size: usize,
    pending: Vec<u8>,
}

impl TransferBuffer {
    /// Where the next transfer goes.
    pub closed spec fn next_address(&self) -> Address {
        self.next
    }

    pub closed spec fn spec_block_size(&self) -> usize {
        self.block_size
    }

    /// The bytes gathered since the last full transfer.
    pub closed spec fn pending(&self) -> Seq<u8> {
        self.pending@
    }

    /// The block size divides the transfer size, and the pending bytes are
    /// a whole number of blocks short of a full transfer.
    pub closed spec fn wf(&self) -> bool {
        &&& self.block_size > 0
        &&& TRANSFER_SIZE % self.block_size == 0
        &&& self.pending@.len() < TRANSFER_SIZE
        &&& self.pending@.len() as int % (self.block_size as int) == 0
    }

    /// A buffer for blocks of `block_size` bytes written from `address`.
    pub fn new(address: Address, block_size: usize) -> (r: TransferBuffer)
        requires
            block_size > 0,
            TRANSFER_SIZE % block_size == 0,
        ensures
            r.wf(),
            r.next_address() == address,
            r.spec_block_size() == block_size,
            r.pending() == Seq::<u8>::empty(),
    {
        TransferBuffer { next: address, block_size, pending: Vec::new() }
    }

    pub fn block_size(&self) -> (r: usize)
        ensures
            r == self.spec_block_size(),
    {
        self.block_size
    }

    /// Adds the next block. When that fills a transfer, returns it with its
    /// address, and the next transfer goes right after it.
    pub fn push(&mut self, block: &[u8]) -> (r: Option<(Address, Vec<u8>)>)
        requires
            old(self).wf(),
            block@.len() == old(self).spec_block_size(),
        ensures
            final(self).wf(),
            final(self).spec_block_size() == old(self).spec_block_size(),
            old(self).pending().len() + block@.len() == TRANSFER_SIZE ==> {
                &&& r matches Some((address, data))
                &&& address == old(self).next_address()
                &&& data@ == old(self).pending() + block@
                &&& final(self).pending() == Seq::<u8>::empty()
                &&& final(self).next_address().0 == saturated_add(old(self).next_address().0 as int, TRANSFER_SIZE as int)
            },
            old(self).pending().len() + block@.len() != TRANSFER_SIZE ==> {
                &&& r is None
                &&& final(self).pending() == old(self).pending() + block@
                &&& final(self).next_address() == old(self).next_address()
            },
    {
        let n = self.block_size;
        proof {
            let m = self.pending@.len() as int / n as int;
            let t = TRANSFER_SIZE as int / n as int;
            lemma_fundamental_div_mod(self.pending@.len() as int, n as int);
            lemma_fundamental_div_mod(TRANSFER_SIZE as int, n as int);
            assert(self.pending@.len() + n <= TRANSFER_SIZE) by (nonlinear_arith)
                requires
                    self.pending@.len() == m * n,
                    TRANSFER_SIZE == t * n,
                    self.pending@.len() < TRANSFER_SIZE,
                    n > 0,
            ;
        }
        let ghost old_pending = self.pending@;
        let mut i: usize = 0;
        while i < n
            invariant
                n == block@.len(),
                i <= n,
                self.next == old(self).next,
                self.block_size == n,
                self.pending@ == old_pending + block@.subrange(0, i as int),
            decreases n - i,
        {
            self.pending.push(block[i]);
            i = i + 1;
            assert(self.pending@ =~= old_pending + block@.subrange(0, i as int));
        }
        assert(block@.subrange(0, n as int) =~= block@);
        if self.pending.len() == TRANSFER_SIZE {
            let data = self.pending.clone();
            self.pending = Vec::new();
            let address = self.next;
            self.next = self.next.add(TRANSFER_SIZE);
            Some((address, data))
        } else {
            proof {
                assert(self.pending@.len() as int % (n as int) == 0) by (nonlinear_arith)
                    requires
                        self.pending@.len() == old_pending.len() + n,
                        old_pending.len() as int % (n as int) == 0,
                        n > 0,
                ;
            }
            None
        }
    }

    /// The last, partial transfer with its address: what was gathered since
    /// the last full one, when there is any.
    pub fn finish(self) -> (r: Option<(Address, Vec<u8>)>)
        ensures
            self.pending().len() == 0 ==> r is None,
            self.pending().len() > 0 ==> (r matches Some((address, data)) && address == self.next_address()
                && data@ == self.pending()),
    {
        if self.pending.len() == 0 {
            None
        } else {
            Some((self.next, self.pending))
        }
    }
}

} // verus!
