//! A model of NOR flash as seen through the address space: programming can
//! only clear bits, and only an erase of a whole sector sets them again.
use vstd::prelude::*;

use crate::memory_map::Sector;

verus! {

/// An operation on the flash, as the model sees it.
pub enum FlashOp {
    /// Erase a whole sector: every byte of it reads `0xFF` afterwards.
    Erase(Sector),
    /// Program bytes from an absolute address: each byte becomes the bitwise
    /// AND of its old value and the programmed one.
    Program(int, Seq<u8>),
}

/// The content after programming `bytes` at `address`.
pub open spec fn programmed(mem: spec_fn(int) -> u8, address: int, bytes: Seq<u8>) -> spec_fn(int) -> u8 {
    |x: int|
        if address <= x < address + bytes.len() {
            mem(x) & bytes[x - address]
        } else {
            mem(x)
        }
}

/// The content after erasing sector `s`.
pub open spec fn erased(mem: spec_fn(int) -> u8, s: Sector) -> spec_fn(int) -> u8 {
    |x: int|
        if s.spec_contains(x) {
            0xFFu8
        } else {
            mem(x)
        }
}

/// The content with `bytes` stored at `address` and everything else kept.
pub open spec fn overlaid(mem: spec_fn(int) -> u8, address: int, bytes: Seq<u8>) -> spec_fn(int) -> u8 {
    |x: int|
        if address <= x < address + bytes.len() {
            bytes[x - address]
        } else {
            mem(x)
        }
}

/// The `len` bytes from `address`.
pub open spec fn read(mem: spec_fn(int) -> u8, address: int, len: nat) -> Seq<u8> {
    Seq::new(len, |i: int| mem(address + i))
}

pub open spec fn run_op(mem: spec_fn(int) -> u8, op: FlashOp) -> spec_fn(int) -> u8 {
    match op {
        FlashOp::Erase(s) => erased(mem, s),
        FlashOp::Program(address, bytes) => programmed(mem, address, bytes),
    }
}

/// The content after the operations `ops`, in order.
pub open spec fn run_ops(mem: spec_fn(int) -> u8, ops: Seq<FlashOp>) -> spec_fn(int) -> u8
    decreases ops.len(),
{
    if ops.len() == 0 {
        mem
    } else {
        run_op(run_ops(mem, ops.drop_last()), ops.last())
    }
}

/// Every 1 bit of `block` is a 1 bit of `existing`.
pub open spec fn byte_subset(block: u8, existing: u8) -> bool {
    block & existing == block
}

/// Each byte of `block` is a bitwise subset of the byte of `existing` at the
/// same position: programming `block` over `existing` needs no erase.
pub open spec fn is_bitwise_subset(block: Seq<u8>, existing: Seq<u8>) -> bool {
    block.len() <= existing.len() && forall|i: int| 0 <= i < block.len() ==> byte_subset(#[trigger] block[i], existing[i])
}

pub proof fn lemma_program_subset(b: u8, e: u8)
    requires
        byte_subset(b, e),
    ensures
        e & b == b,
{
    assert(b & e == b ==> e & b == b) by (bit_vector);
}

pub proof fn lemma_program_erased(b: u8)
    ensures
        0xFFu8 & b == b,
        b & 0xFFu8 == b,
{
    assert(0xFFu8 & b == b && b & 0xFFu8 == b) by (bit_vector);
}

} // verus!
