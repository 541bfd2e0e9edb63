use mcu_flash::qspi::{
    Bk1CsPin, Bk1Io0Pin, Bk1Io1Pin, Bk1Io2Pin, Bk1Io3Pin, ClkPin, Config, ConfigError, DataRate, Error, FlashMode,
    IndirectCommand, QuadSpi, Single,
};

struct Pin;
impl ClkPin for Pin {}
impl Bk1CsPin for Pin {}
impl Bk1Io0Pin for Pin {}
impl Bk1Io1Pin for Pin {}
impl Bk1Io2Pin for Pin {}
impl Bk1Io3Pin for Pin {}

type Pins = (Pin, Pin, Pin, Pin, Pin, Pin);

fn qspi(config: Config<Single>) -> Result<QuadSpi<(), Pins, Single>, ConfigError> {
    QuadSpi::from_config((), (Pin, Pin, Pin, Pin, Pin, Pin), config)
}

#[test]
fn default_configuration_uses_24_bit_addresses() {
    let q = qspi(Config::<Single>::default()).ok().unwrap();
    assert_eq!(q.flash_size_field(), 23);
    let command = q.read(Some(0x03), Some(0x10), 4, 0, false).unwrap();
    assert_eq!(command.address_size, 2);
}

#[test]
fn flash_size_accepts_only_supported_widths() {
    assert!(matches!(Config::<Single>::default().with_flash_size(12), Err(ConfigError::InvalidFlashSize)));
    let config = Config::<Single>::default().with_flash_size(32).ok().unwrap();
    let q = qspi(config).ok().unwrap();
    assert_eq!(q.flash_size_field(), 31);
    assert_eq!(q.write(None, None, None, 0, false).unwrap().address_size, 3);
    let config = Config::<Single>::default().quad().with_flash_size(8).ok().unwrap().single();
    assert_eq!(qspi(config).ok().unwrap().read(None, None, 1, 0, false).unwrap().address_size, 0);
    let config = Config::<Single>::default().double().with_flash_size(16).ok().unwrap().single();
    assert_eq!(qspi(config).ok().unwrap().read(None, None, 1, 0, false).unwrap().address_size, 1);
}

#[test]
fn double_rate_and_dual_flash_are_not_implemented() {
    let config = Config::<Single>::default().with_data_rate(DataRate::Double);
    assert!(matches!(qspi(config), Err(ConfigError::NotYetImplemented)));
    let config = Config::<Single>::default().with_flash_mode(FlashMode::Double);
    assert!(matches!(qspi(config), Err(ConfigError::NotYetImplemented)));
    let config = Config::<Single>::default().with_flash_mode(FlashMode::Double).with_flash_mode(FlashMode::Single);
    assert!(qspi(config).is_ok());
}

#[test]
fn indirect_commands_carry_their_phases() {
    let q = qspi(Config::default()).ok().unwrap();
    let write = q.write(Some(0x02), Some(0x0123_4567), Some(256), 8, false).unwrap();
    assert_eq!(
        write,
        IndirectCommand {
            data_length: 255,
            instruction: Some(0x02),
            read: false,
            address_size: 2,
            address: Some(0x0123_4567),
            data: true,
            dummy_cycles: 8,
        }
    );
    let bare = q.write(Some(0x06), None, None, 0, false).unwrap();
    assert_eq!(bare.data_length, 0);
    assert!(!bare.data);
    assert_eq!(bare.address, None);
    let read = q.read(Some(0x9F), None, 0, 31, false).unwrap();
    assert_eq!(read.data_length, 0);
    assert!(read.read);
    assert!(read.data);
}

#[test]
fn dummy_cycles_are_bounded_and_busy_waits() {
    let q = qspi(Config::default()).ok().unwrap();
    assert_eq!(q.write(None, None, None, 32, false).unwrap_err(), nb::Error::Other(Error::DummyCyclesValueOutOfRange));
    assert_eq!(q.read(None, None, 1, 40, true).unwrap_err(), nb::Error::Other(Error::DummyCyclesValueOutOfRange));
    assert_eq!(q.read(None, None, 1, 31, true).unwrap_err(), nb::Error::WouldBlock);
}

use mcu_flash::winbond::{check_id, Error as WinbondError};

#[test]
fn winbond_identification_is_checked() {
    assert_eq!(check_id(&[0xEF, 0x40, 0x16]), Ok(()));
    assert_eq!(check_id(&[0xEF, 0x40, 0x17]), Err(nb::Error::Other(WinbondError::WrongManufacturerId)));
    assert_eq!(check_id(&[0xEF, 0x40]), Err(nb::Error::Other(WinbondError::WrongManufacturerId)));
}
