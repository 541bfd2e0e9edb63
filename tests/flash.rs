use mcu_flash::flash::{Error, McuFlash, Operation, UNLOCK_KEY_FIRST, UNLOCK_KEY_SECOND};
use mcu_flash::overlap::overlaps;
use mcu_flash::transfer::{TransferBuffer, TRANSFER_SIZE};
use mcu_flash::{Address, Block, MemoryMap, Sector};

const BASE: u32 = 0x0800_0000;
const MAIN_AREA_SIZE: usize = 0x10_0000;

/// NOR flash of the main memory area: programming ANDs, erasing sets a
/// whole sector to 0xFF. It records each erase.
struct Nor {
    mem: Vec<u8>,
    erases: Vec<u8>,
}

impl Nor {
    fn new() -> Nor {
        Nor { mem: vec![0xFF; MAIN_AREA_SIZE], erases: Vec::new() }
    }

    fn read(&self, address: Address, len: usize) -> Vec<u8> {
        let at = (address.0 - BASE) as usize;
        self.mem[at..at + len].to_vec()
    }

    fn run(&mut self, flash: &McuFlash<()>, op: &Operation) {
        match op {
            Operation::Erase(sector) => {
                let number = flash.erase(sector, false).unwrap();
                self.erases.push(number);
                let at = (sector.start().0 - BASE) as usize;
                for b in &mut self.mem[at..at + sector.size] {
                    *b = 0xFF;
                }
            }
            Operation::Program { sector, address, bytes } => {
                let words = flash.write_bytes(bytes, sector, *address, false).unwrap();
                let at = (address.0 - BASE) as usize;
                for (i, w) in words.iter().enumerate() {
                    for (k, b) in w.to_le_bytes().iter().enumerate() {
                        if at + 4 * i + k < self.mem.len() {
                            self.mem[at + 4 * i + k] &= *b;
                        }
                    }
                }
            }
        }
    }

    fn write(&mut self, flash: &McuFlash<()>, address: Address, bytes: &[u8]) -> Result<(), nb::Error<Error>> {
        let pieces = flash.write(address, bytes, false)?;
        for piece in pieces {
            let data = self.read(piece.sector.start(), piece.sector.size);
            for op in flash.sector_write(&piece, &data) {
                self.run(flash, &op);
            }
        }
        Ok(())
    }
}

fn flash() -> McuFlash<()> {
    McuFlash::new(()).unwrap()
}

#[test]
fn construction_succeeds_and_reports_the_writable_range() {
    let f = flash();
    assert_eq!(f.range(), (Address(0x0801_0000), Address(0x0810_0000)));
    assert_eq!(McuFlash::<()>::label(), "stm32f4 flash (Internal)");
}

#[test]
fn misaligned_write_fails_before_anything_else() {
    let f = flash();
    assert_eq!(f.write(Address(0x0801_0001), &[1, 2], true).unwrap_err(), nb::Error::Other(Error::MisalignedAccess));
    assert_eq!(f.write(Address(0x0000_0002), &[1], false).unwrap_err(), nb::Error::Other(Error::MisalignedAccess));
}

#[test]
fn writes_outside_the_writable_area_are_not_reachable() {
    let f = flash();
    let unreachable = nb::Error::Other(Error::MemoryNotReachable);
    // Wholly before, in the reserved sectors.
    assert_eq!(f.write(Address(0x0800_0000), &[0; 8], false).unwrap_err(), unreachable);
    // Partly before.
    assert_eq!(f.write(Address(0x0800_FFF8), &[0; 16], false).unwrap_err(), unreachable);
    // Partly after the end.
    assert_eq!(f.write(Address(0x080F_FFF8), &[0; 16], false).unwrap_err(), unreachable);
    // Wholly after.
    assert_eq!(f.write(Address(0x0810_0000), &[0; 4], false).unwrap_err(), unreachable);
    assert_eq!(f.write(Address(0x1FFF_0000), &[0; 4], false).unwrap_err(), unreachable);
    // The last bytes of the writable area are fine.
    assert!(f.write(Address(0x080F_FFF8), &[0; 8], false).is_ok());
}

#[test]
fn busy_peripheral_makes_a_valid_write_wait() {
    let f = flash();
    assert_eq!(f.write(Address(0x0801_0000), &[1, 2, 3, 4], true).unwrap_err(), nb::Error::WouldBlock);
}

#[test]
fn reads_are_checked_against_the_writable_area() {
    let f = flash();
    assert_eq!(f.read(Address(0x0801_0000), 16), Ok(()));
    assert_eq!(f.read(Address(0x0801_0001), 3), Ok(()));
    assert_eq!(f.read(Address(0x0800_0000), 16), Err(Error::MemoryNotReachable));
    assert_eq!(f.read(Address(0x080F_FFFF), 2), Err(Error::MemoryNotReachable));
}

#[test]
fn write_then_read_round_trips_without_erase_on_blank_flash() {
    let f = flash();
    let mut nor = Nor::new();
    let data = [0x12, 0x34, 0x56, 0x78, 0x9A, 0xBC];
    nor.write(&f, Address(0x0802_0010), &data).unwrap();
    assert_eq!(nor.read(Address(0x0802_0010), data.len()), data.to_vec());
    assert!(nor.erases.is_empty());
    // The bytes after the write, in its last word, keep their value.
    assert_eq!(nor.read(Address(0x0802_0016), 2), vec![0xFF, 0xFF]);
}

#[test]
fn clearing_bits_only_needs_no_erase() {
    let f = flash();
    let mut nor = Nor::new();
    nor.write(&f, Address(0x0802_0000), &[0xF0, 0xFF, 0x0F, 0xAA]).unwrap();
    nor.write(&f, Address(0x0802_0000), &[0xF0, 0x0F, 0x0F, 0x00]).unwrap();
    assert!(nor.erases.is_empty());
    assert_eq!(nor.read(Address(0x0802_0000), 4), vec![0xF0, 0x0F, 0x0F, 0x00]);
}

#[test]
fn setting_bits_erases_the_sector_once_and_keeps_the_rest() {
    let f = flash();
    let mut nor = Nor::new();
    nor.write(&f, Address(0x0802_0000), &[0x00, 0x11, 0x22, 0x33]).unwrap();
    nor.write(&f, Address(0x0802_1000), &[0x44, 0x55, 0x66, 0x77]).unwrap();
    nor.write(&f, Address(0x0802_0000), &[0xFF, 0x11, 0x22, 0x33]).unwrap();
    assert_eq!(nor.erases, vec![5]);
    assert_eq!(nor.read(Address(0x0802_0000), 4), vec![0xFF, 0x11, 0x22, 0x33]);
    assert_eq!(nor.read(Address(0x0802_1000), 4), vec![0x44, 0x55, 0x66, 0x77]);
}

#[test]
fn a_write_across_two_sector_boundaries_handles_each_sector_alone() {
    let f = flash();
    let mut nor = Nor::new();
    // Sector 5 holds data that the new write must reset: it needs an erase.
    nor.write(&f, Address(0x0803_FFF0), &[0x00; 4]).unwrap();
    nor.write(&f, Address(0x0803_FF00), &[0x5A; 4]).unwrap();
    let start = Address(0x0803_FFF0);
    let mut data = vec![0xA5u8; 0x20000 + 0x20];
    data[0] = 0xFF;
    nor.write(&f, start, &data).unwrap();
    // Sector 5 was erased once; sectors 6 and 7 were blank and were not.
    assert_eq!(nor.erases, vec![5]);
    assert_eq!(nor.read(start, data.len()), data);
    assert_eq!(nor.read(Address(0x0803_FF00), 4), vec![0x5A; 4]);
    assert_eq!(nor.read(Address(0x0806_0010), 4), vec![0xFF; 4]);
}

#[test]
fn pieces_of_a_write_follow_the_sectors() {
    let bytes: Vec<u8> = (0..40u8).collect();
    let pieces = overlaps(&bytes, Address(0x0801_FFF0));
    assert_eq!(pieces.len(), 2);
    assert_eq!(pieces[0].address, Address(0x0801_FFF0));
    assert_eq!(pieces[0].sector, MemoryMap::sectors()[4]);
    assert_eq!(pieces[0].block, bytes[0..16].to_vec());
    assert_eq!(pieces[1].address, Address(0x0802_0000));
    assert_eq!(pieces[1].sector, MemoryMap::sectors()[5]);
    assert_eq!(pieces[1].block, bytes[16..40].to_vec());
    assert!(overlaps(&[], Address(0x0801_0000)).is_empty());
}

#[test]
fn sector_write_decides_between_program_and_erase() {
    let f = flash();
    let sector = MemoryMap::sectors()[4];
    let mut data = vec![0xFFu8; sector.size];
    data[8] = 0x0F;
    let pieces = f.write(Address(0x0801_0008), &[0x0F, 0x00], false).unwrap();
    let ops = f.sector_write(&pieces[0], &data);
    assert_eq!(ops.len(), 1);
    assert!(matches!(&ops[0], Operation::Program { address, bytes, .. } if *address == Address(0x0801_0008) && *bytes == vec![0x0F, 0x00]));

    let pieces = f.write(Address(0x0801_0008), &[0xF0], false).unwrap();
    let ops = f.sector_write(&pieces[0], &data);
    assert_eq!(ops.len(), 2);
    assert!(matches!(&ops[0], Operation::Erase(s) if *s == sector));
    match &ops[1] {
        Operation::Program { address, bytes, .. } => {
            assert_eq!(*address, sector.start());
            assert_eq!(bytes.len(), sector.size);
            assert_eq!(bytes[8], 0xF0);
            assert_eq!(bytes[9], 0xFF);
        }
        _ => panic!("expected a program"),
    }
}

#[test]
fn program_words_are_little_endian_and_padded_with_ones() {
    let f = flash();
    let sector = MemoryMap::sectors()[4];
    let words = f.write_bytes(&[0x01, 0x02, 0x03, 0x04, 0x05], &sector, Address(0x0801_0000), false).unwrap();
    assert_eq!(words, vec![0x0403_0201, 0xFFFF_FF05]);
    let words = f.write_bytes(&[0x01, 0x02, 0x03, 0x04], &sector, Address(0x0801_0000), false).unwrap();
    assert_eq!(words, vec![0x0403_0201]);
    assert_eq!(f.write_bytes(&[], &sector, Address(0x0801_0000), false).unwrap(), Vec::<u32>::new());
}

#[test]
fn program_outside_its_sector_is_misaligned() {
    let f = flash();
    let sector = MemoryMap::sectors()[4];
    let misaligned = nb::Error::Other(Error::MisalignedAccess);
    assert_eq!(f.write_bytes(&[0; 4], &sector, Address(0x0800_FFFC), false).unwrap_err(), misaligned);
    assert_eq!(f.write_bytes(&[0; 8], &sector, Address(0x0801_FFFC), false).unwrap_err(), misaligned);
    assert_eq!(f.write_bytes(&[0; 4], &sector, Address(0x0801_FFFC), true).unwrap_err(), nb::Error::WouldBlock);
    // A sector at the top of the address space: the bound does not saturate.
    let top = Sector::new(Block::Main, Address(0xFFFF_FF00), 0xFF);
    assert_eq!(f.write_bytes(&[0; 512], &top, Address(0xFFFF_FF00), false).unwrap_err(), misaligned);
    assert_eq!(f.write_bytes(&[0; 256], &top, Address(0xFFFF_FF00), false).unwrap_err(), misaligned);
    assert!(f.write_bytes(&[0; 255], &top, Address(0xFFFF_FF00), false).is_ok());
    assert_eq!(f.write_bytes(&[], &sector, Address(0x0802_0004), false).unwrap_err(), misaligned);
}

#[test]
fn erase_resolves_the_sector_index() {
    let f = flash();
    let sectors = MemoryMap::sectors();
    assert_eq!(f.erase(&sectors[7], false), Ok(7));
    assert_eq!(f.erase(&sectors[7], true), Err(nb::Error::WouldBlock));
    assert_eq!(f.erase(&sectors[12], false), Err(nb::Error::Other(Error::MemoryNotReachable)));
    let stray = Sector::new(Block::Main, Address(0x0801_0000), 4);
    assert_eq!(f.erase(&stray, false), Err(nb::Error::Other(Error::MemoryNotReachable)));
}

#[test]
fn unlock_gives_the_key_sequence_when_idle() {
    let f = flash();
    assert_eq!(f.unlock(false), Ok([UNLOCK_KEY_FIRST, UNLOCK_KEY_SECOND]));
    assert_eq!(f.unlock(false), Ok([0x4567_0123, 0xCDEF_89AB]));
    assert_eq!(f.unlock(true), Err(nb::Error::WouldBlock));
}

#[test]
fn erasing_the_device_touches_only_writable_sectors() {
    let f = flash();
    let sectors = f.writable_sectors();
    assert_eq!(&sectors[..], &MemoryMap::sectors()[4..12]);
    assert!(sectors.iter().all(|s| s.block == Block::Main));
}

#[test]
fn transfers_gather_blocks_into_full_buffers() {
    let mut buffer = TransferBuffer::new(Address(0x0801_0000), 1024);
    assert_eq!(buffer.block_size(), 1024);
    assert!(buffer.push(&[1u8; 1024]).is_none());
    assert!(buffer.push(&[2u8; 1024]).is_none());
    assert!(buffer.push(&[3u8; 1024]).is_none());
    let (address, data) = buffer.push(&[4u8; 1024]).unwrap();
    assert_eq!(address, Address(0x0801_0000));
    assert_eq!(data.len(), TRANSFER_SIZE);
    assert_eq!(data[0], 1);
    assert_eq!(data[3 * 1024], 4);
    assert!(buffer.push(&[5u8; 1024]).is_none());
    let (address, rest) = buffer.finish().unwrap();
    assert_eq!(address, Address(0x0801_1000));
    assert_eq!(rest, vec![5u8; 1024]);
}

#[test]
fn no_last_transfer_without_pending_bytes() {
    let buffer = TransferBuffer::new(Address(0x0802_0000), 16);
    assert!(buffer.finish().is_none());
    let mut buffer = TransferBuffer::new(Address(0x080F_F000), 2048);
    assert!(buffer.push(&[1u8; 2048]).is_none());
    assert_eq!(buffer.push(&[2u8; 2048]).unwrap().0, Address(0x080F_F000));
    assert!(buffer.finish().is_none());
}
