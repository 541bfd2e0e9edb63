//! Absolute 32-bit memory addresses.
use vstd::prelude::*;

verus! {

/// An absolute address in the microcontroller's 32-bit address space.
#[derive(Default, Copy, Clone, Debug, PartialOrd, PartialEq, Ord, Eq, Structural)]
pub struct Address(pub u32);

/// `x + y`, saturated to the largest 32-bit value.
pub open spec fn saturated_add(x: int, y: int) -> int {
    if x + y > u32::MAX { u32::MAX as int } else { x + y }
}

/// `x - y`, saturated at zero.
pub open spec fn saturated_sub(x: int, y: int) -> int {
    if x - y < 0 { 0 } else { x - y }
}

impl Address {
    /// The address `size` bytes after this one, saturating at the top of the
    /// address space.
    pub fn add(self, size: usize) -> (r: Address)
        ensures
            r.0 == saturated_add(self.0 as int, size as int),
    {
        if size as u64 > (u32::MAX - self.0) as u64 {
            Address(u32::MAX)
        } else {
            Address(self.0 + size as u32)
        }
    }

    /// The address `size` bytes before this one, saturating at zero.
    pub fn sub(self, size: usize) -> (r: Address)
        ensures
            r.0 == saturated_sub(self.0 as int, size as int),
    {
        if size as u64 > self.0 as u64 {
            Address(0)
        } else {
            Address(self.0 - size as u32)
        }
    }

    /// The number of bytes from `other` up to this address; zero when `other`
    /// is not below it.
    pub fn bytes_since(self, other: Address) -> (r: usize)
        ensures
            r == saturated_sub(self.0 as int, other.0 as int),
    {
        if self.0 >= other.0 {
            (self.0 - other.0) as usize
        } else {
            0
        }
    }

    /// The address as an index into the address space.
    pub fn as_usize(self) -> (r: usize)
        ensures
            r == self.0,
    {
        self.0 as usize
    }
}

} // verus!
