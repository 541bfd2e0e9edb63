//! Driver core for the internal NOR flash of an STM32F4 microcontroller:
//! the memory map, the address and range algebra over it, the decomposition
//! of a write into sector-local pieces, and the decisions of the write/erase
//! engine, all stated against a model of NOR flash.
//!
//! Beside it stand the decisions of the QuadSPI driver, the identification
//! check of an external Winbond flash, GPIO typestates and two small
//! sequence utilities. Registers and memory-mapped accesses are left to the
//! caller, which hands the library plain values (a busy flag, a sector's
//! content) and carries out what it decides.
use vstd::prelude::*;

pub mod address;
pub mod flash;
pub mod gpio;
pub mod iterator;
pub mod memory_map;
pub mod nor;
pub mod overlap;
pub mod qspi;
pub mod transfer;
pub mod winbond;

pub use address::Address;
pub use memory_map::{Block, MemoryMap, Range, Sector};

use nb::Error as NbError;

verus! {

/// The error type of the `nb` crate, which separates "try again" from a
/// definite failure. Relies on `nb::Error<E>` being the plain two-variant
/// enum `Other(E) | WouldBlock`.
#[verifier::external_type_specification]
#[verifier::reject_recursive_types(E)]
pub struct ExNbError<E>(NbError<E>);

} // verus!
