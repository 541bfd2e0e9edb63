//! Configuration of the QuadSPI peripheral, and the decisions behind its
//! indirect transfers: argument checks and the command fields to program.
use vstd::prelude::*;

use core::marker::PhantomData;

verus! {

/// Pins that can carry each QSPI signal.
pub trait ClkPin {}

pub trait Bk1CsPin {}

pub trait Bk2CsPin {}

pub trait Bk1Io0Pin {}

pub trait Bk1Io1Pin {}

pub trait Bk1Io2Pin {}

pub trait Bk1Io3Pin {}

pub trait Bk2Io0Pin {}

pub trait Bk2Io1Pin {}

pub trait Bk2Io2Pin {}

pub trait Bk2Io3Pin {}

/// Largest number of dummy cycles a command may ask for.
pub const MAX_DUMMY_CYCLES: u8 = 31;

/// Single-line mode (typestate).
pub struct Single;

/// Dual-line mode (typestate).
pub struct Dual;

/// Quad-line mode (typestate).
pub struct Quad;

/// Whether bits are clocked on both edges
#[derive(Copy, Clone, PartialEq, Eq, Structural, Debug)]
pub enum DataRate {
    Single,
    /// Unimplemented
    Double,
}

/// Number of flash memories sharing a bus
#[derive(Copy, Clone, PartialEq, Eq, Structural, Debug)]
pub enum FlashMode {
    Single,
    /// Unimplemented
    Double,
}

/// Address widths, in bits, that the peripheral supports.
pub open spec fn valid_flash_size(bits: u8) -> bool {
    bits == 8 || bits == 16 || bits == 24 || bits == 32
}

/// QuadSPI configuration
pub struct Config<MODE> {
    data_rate: DataRate,
    flash_mode: FlashMode,
    flash_size_bits: u8,
    _marker: PhantomData<MODE>,
}

impl<MODE> View for Config<MODE> {
    type V = (DataRate, FlashMode, u8);

    closed spec fn view(&self) -> (DataRate, FlashMode, u8) {
        (self.data_rate, self.flash_mode, self.flash_size_bits)
    }
}

impl<MODE> Config<MODE> {
    /// The address width is always one the peripheral supports.
    #[verifier::type_invariant]
    spec fn inv(&self) -> bool {
        valid_flash_size(self.flash_size_bits)
    }

    pub fn single(self) -> (r: Config<Single>)
        ensures
            r@ == self@,
    {
        proof { use_type_invariant(&self); }
        Config {
            data_rate: self.data_rate,
            flash_mode: self.flash_mode,
            flash_size_bits: self.flash_size_bits,
            _marker: PhantomData,
        }
    }

    pub fn double(self) -> (r: Config<Dual>)
        ensures
            r@ == self@,
    {
        proof { use_type_invariant(&self); }
        Config {
            data_rate: self.data_rate,
            flash_mode: self.flash_mode,
            flash_size_bits: self.flash_size_bits,
            _marker: PhantomData,
        }
    }

    pub fn quad(self) -> (r: Config<Quad>)
        ensures
            r@ == self@,
    {
        proof { use_type_invariant(&self); }
        Config {
            data_rate: self.data_rate,
            flash_mode: self.flash_mode,
            flash_size_bits: self.flash_size_bits,
            _marker: PhantomData,
        }
    }

    pub fn with_data_rate(self, data_rate: DataRate) -> (r: Self)
        ensures
            r@ == (data_rate, self@.1, self@.2),
    {
        proof { use_type_invariant(&self); }
        Config { data_rate, flash_mode: self.flash_mode, flash_size_bits: self.flash_size_bits, _marker: PhantomData }
    }

    pub fn with_flash_mode(self, flash_mode: FlashMode) -> (r: Self)
        ensures
            r@ == (self@.0, flash_mode, self@.2),
    {
        proof { use_type_invariant(&self); }
        Config { data_rate: self.data_rate, flash_mode, flash_size_bits: self.flash_size_bits, _marker: PhantomData }
    }

    /// Sets the address width; only 8, 16, 24 and 32 bits are accepted.
    pub fn with_flash_size(self, bits: u8) -> (r: Result<Self, ConfigError>)
        ensures
            valid_flash_size(bits) ==> (r matches Ok(c) && c@ == (self@.0, self@.1, bits)),
            !valid_flash_size(bits) ==> r matches Err(ConfigError::InvalidFlashSize),
    {
        match bits {
            8 | 16 | 24 | 32 => Ok(
                Config { data_rate: self.data_rate, flash_mode: self.flash_mode, flash_size_bits: bits, _marker: PhantomData },
            ),
            _ => Err(ConfigError::InvalidFlashSize),
        }
    }
}

impl<MODE> Default for Config<MODE> {
    /// Single data rate, a single flash, 24-bit addresses.
    fn default() -> (r: Self)
        ensures
            r@ == (DataRate::Single, FlashMode::Single, 24u8),
    {
        Config { data_rate: DataRate::Single, flash_mode: FlashMode::Single, flash_size_bits: 24, _marker: PhantomData }
    }
}

#[derive(Copy, Clone, Debug, PartialEq, Eq, Structural)]
pub enum ConfigError {
    NotYetImplemented,
    InvalidFlashSize,
}

/// Marker trait for a tuple of pins that work for a given QSPI in Single mode
pub trait SingleModePins {}

impl<CLK, CS, IO0, IO1, IO2, IO3> SingleModePins for (CLK, CS, IO0, IO1, IO2, IO3) where
    CLK: ClkPin,
    CS: Bk1CsPin,
    IO0: Bk1Io0Pin,
    IO1: Bk1Io1Pin,
    IO2: Bk1Io2Pin,
    IO3: Bk1Io3Pin,
 {

}

/// A flash instruction code.
#[derive(Copy, Clone, Debug, PartialEq, Eq, Structural)]
pub struct Instruction(pub u8);

#[derive(Copy, Clone, Debug, PartialEq, Eq, Structural)]
pub enum Error {
    DummyCyclesValueOutOfRange,
}

/// The fields of an indirect-mode command, as the peripheral's data length,
/// communication configuration and address registers take them.
#[derive(Copy, Clone, Debug, PartialEq, Eq, Structural)]
pub struct IndirectCommand {
    /// Number of data bytes minus one (zero without a data phase).
    pub data_length: u32,
    /// Instruction phase, on a single line, when present.
    pub instruction: Option<u8>,
    /// Indirect read (otherwise indirect write).
    pub read: bool,
    /// Address size field: 0, 1, 2, 3 for 8, 16, 24, 32 bits.
    pub address_size: u8,
    /// Address phase, on a single line, when present.
    pub address: Option<u32>,
    /// Data phase on a single line.
    pub data: bool,
    pub dummy_cycles: u8,
}

/// The address size field for an address width.
pub open spec fn address_size_field(bits: u8) -> u8 {
    if bits == 8 {
        0
    } else if bits == 16 {
        1
    } else if bits == 24 {
        2
    } else {
        3
    }
}

/// `len - 1`, or zero for no bytes, in 32 bits.
pub open spec fn data_length_field(len: int) -> u32 {
    (if len == 0 { 0 } else { len - 1 }) as u32
}

/// QuadSPI driver in a given pin set and mode; it owns the peripheral
/// handle `Q`.
pub struct QuadSpi<Q, PINS, MODE> {
    qspi: Q,
    config: Config<MODE>,
    _marker: PhantomData<PINS>,
}

impl<Q, PINS> QuadSpi<Q, PINS, Single> where PINS: SingleModePins {
    /// Takes the peripheral with a single-mode configuration; double data
    /// rate and dual flash are not implemented.
    pub fn from_config(qspi: Q, pins: PINS, config: Config<Single>) -> (r: Result<Self, ConfigError>)
        ensures
            (config@.0 == DataRate::Single && config@.1 == FlashMode::Single) ==> (r matches Ok(q) && q.configuration() == config@ && q.handle() == qspi),
            !(config@.0 == DataRate::Single && config@.1 == FlashMode::Single) ==> r matches Err(ConfigError::NotYetImplemented),
    {
        let supported = match (config.data_rate, config.flash_mode) {
            (DataRate::Single, FlashMode::Single) => true,
            _ => false,
        };
        if !supported {
            return Err(ConfigError::NotYetImplemented);
        }
        Ok(QuadSpi { qspi, config, _marker: PhantomData })
    }
}

impl<Q, PINS, MODE> QuadSpi<Q, PINS, MODE> {
    pub closed spec fn configuration(&self) -> (DataRate, FlashMode, u8) {
        self.config@
    }

    pub closed spec fn handle(&self) -> Q {
        self.qspi
    }

    /// The peripheral, for the caller to program the registers with.
    pub fn peripheral(&mut self) -> (r: &mut Q)
        ensures
            *r == old(self).handle(),
            final(self).handle() == *final(r),
            final(self).configuration() == old(self).configuration(),
    {
        &mut self.qspi
    }

    /// The flash size field at initialisation: the address width minus one.
    pub fn flash_size_field(&self) -> (r: u8)
        ensures
            r == self.configuration().2 - 1,
    {
        proof { use_type_invariant(&self.config); }
        self.config.flash_size_bits - 1
    }

    fn address_size(&self) -> (r: u8)
        ensures
            r == address_size_field(self.configuration().2),
    {
        proof { use_type_invariant(&self.config); }
        match self.config.flash_size_bits {
            8 => 0,
            16 => 1,
            24 => 2,
            _ => 3,
        }
    }

    /// The command for an indirect write of `data_len` bytes (none without
    /// a data phase). Too many dummy cycles is an error; the caller must try
    /// again while the peripheral is busy.
    pub fn write(&self, instruction: Option<u8>, address: Option<u32>, data_len: Option<usize>, dummy_cycles: u8, busy: bool) -> (r: nb::Result<IndirectCommand, Error>)
        ensures
            dummy_cycles > MAX_DUMMY_CYCLES ==> r matches Err(nb::Error::Other(Error::DummyCyclesValueOutOfRange)),
            dummy_cycles <= MAX_DUMMY_CYCLES && busy ==> r matches Err(nb::Error::WouldBlock),
            dummy_cycles <= MAX_DUMMY_CYCLES && !busy ==> r == Ok::<IndirectCommand, nb::Error<Error>>(IndirectCommand {
                data_length: match data_len { Some(n) => data_length_field(n as int), None => 0 },
                instruction,
                read: false,
                address_size: address_size_field(self.configuration().2),
                address,
                data: data_len is Some,
                dummy_cycles,
            }),
    {
        if dummy_cycles > MAX_DUMMY_CYCLES {
            return Err(nb::Error::Other(Error::DummyCyclesValueOutOfRange));
        }
        let address_size = self.address_size();
        // Early yield if busy
        if busy {
            return Err(nb::Error::WouldBlock);
        }
        let (data_length, data) = match data_len {
            Some(n) => (if n == 0 { 0 } else { (n - 1) as u32 }, true),
            None => (0, false),
        };
        Ok(IndirectCommand { data_length, instruction, read: false, address_size, address, data, dummy_cycles })
    }

    /// The command for an indirect read of `data_len` bytes. Too many dummy
    /// cycles is an error; the caller must try again while the peripheral is
    /// busy.
    pub fn read(&self, instruction: Option<u8>, address: Option<u32>, data_len: usize, dummy_cycles: u8, busy: bool) -> (r: nb::Result<IndirectCommand, Error>)
        ensures
            dummy_cycles > MAX_DUMMY_CYCLES ==> r matches Err(nb::Error::Other(Error::DummyCyclesValueOutOfRange)),
            dummy_cycles <= MAX_DUMMY_CYCLES && busy ==> r matches Err(nb::Error::WouldBlock),
            dummy_cycles <= MAX_DUMMY_CYCLES && !busy ==> r == Ok::<IndirectCommand, nb::Error<Error>>(IndirectCommand {
                data_length: data_length_field(data_len as int),
                instruction,
                read: true,
                address_size: address_size_field(self.configuration().2),
                address,
                data: true,
                dummy_cycles,
            }),
    {
        if dummy_cycles > MAX_DUMMY_CYCLES {
            return Err(nb::Error::Other(Error::DummyCyclesValueOutOfRange));
        }
        let address_size = self.address_size();
        // Early yield if busy
        if busy {
            return Err(nb::Error::WouldBlock);
        }
        let data_length = if data_len == 0 { 0 } else { (data_len - 1) as u32 };
        Ok(IndirectCommand { data_length, instruction, read: true, address_size, address, data: true, dummy_cycles })
    }
}

} // verus!
