//! Identification of a Winbond W25Q32JV external SPI flash.
use vstd::prelude::*;

verus! {

#[derive(Copy, Clone, Debug, PartialEq, Eq, Structural)]
pub enum Error {
    WrongManufacturerId,
    SpiError,
}

/// Instruction that reads the manufacturer and device identifiers.
pub const READ_MANUFACTURER_DEVICE_ID: u8 = 0x90;

/// Dummy bytes that follow the identification instruction.
pub const ID_DUMMY_BYTES: usize = 3;

/// Length of the identification reply.
pub const ID_LENGTH: usize = 3;

/// The identification reply of a W25Q32JV: manufacturer, then device.
pub open spec fn expected_id() -> Seq<u8> {
    seq![0xEFu8, 0x40u8, 0x16u8]
}

/// Checks the identification reply read from the chip.
pub fn check_id(response: &[u8]) -> (r: nb::Result<(), Error>)
    ensures
        response@ == expected_id() ==> r is Ok,
        response@ != expected_id() ==> r matches Err(nb::Error::Other(Error::WrongManufacturerId)),
{
    let expected: [u8; 3] = [0xEF, 0x40, 0x16];
    if response.len() != expected.len() {
        return Err(nb::Error::Other(Error::WrongManufacturerId));
    }
    let mut i: usize = 0;
    while i < expected.len()
        invariant
            response@.len() == 3,
            expected@ == expected_id(),
            i <= 3,
            forall|k: int| 0 <= k < i ==> response@[k] == expected_id()[k],
        decreases 3 - i,
    {
        if response[i] != expected[i] {
            return Err(nb::Error::Other(Error::WrongManufacturerId));
        }
        i = i + 1;
    }
    assert(response@ =~= expected_id());
    Ok(())
}

} // verus!
