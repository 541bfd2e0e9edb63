use mcu_flash::memory_map::{max_sector_size, KB};
use mcu_flash::{Address, Block, MemoryMap, Range, Sector};

#[test]
fn ranges_overlap_sectors_correctly() {
    let sector = Sector::new(Block::Reserved, Address(10), 10usize);
    assert!(Range(Address(10), Address(20)).overlaps(&sector));
    assert!(Range(Address(5), Address(15)).overlaps(&sector));
    assert!(Range(Address(15), Address(25)).overlaps(&sector));
    assert!(Range(Address(5), Address(25)).overlaps(&sector));
    assert!(Range(Address(12), Address(18)).overlaps(&sector));

    assert!(!Range(Address(0), Address(5)).overlaps(&sector));
    assert!(!Range(Address(20), Address(25)).overlaps(&sector));
}

#[test]
fn ranges_span_the_correct_sectors() {
    let range = Range(Address(0x0801_1234), Address(0x0804_5678));
    let sectors = MemoryMap::sectors();
    let expected_sectors = &sectors[4..7];

    assert_eq!(expected_sectors, &range.span()[..]);
}

#[test]
fn map_shows_correct_writable_range() {
    let (start, end) = (MemoryMap::writable_start(), MemoryMap::writable_end());
    let sectors = MemoryMap::sectors();
    assert_eq!(start, sectors[4].start());
    assert_eq!(end, sectors[11].end());
}

#[test]
fn ranges_are_correctly_marked_writable() {
    let (start, size) = (Address(0x0801_0008), 48usize);
    let range = Range(start, Address(start.0 + size as u32));
    assert!(range.is_writable());
}

#[test]
fn span_of_a_range_from_the_first_large_sector() {
    let first_64k = MemoryMap::sectors()[4];
    assert_eq!(first_64k.size, 64 * KB);
    let low = first_64k.start().0 + 0x1234;
    let span = Range(Address(low), Address(low + 0x34444)).span();
    assert_eq!(span.len(), 3);
    assert_eq!(span[0].size, 64 * KB);
    assert_eq!(span[1].size, 128 * KB);
    assert_eq!(span[2].size, 128 * KB);
    assert_eq!(&span[..], &MemoryMap::sectors()[4..7]);
}

#[test]
fn span_falls_back_to_the_first_sector_when_nothing_overlaps() {
    let span = Range(Address(0x0900_0000), Address(0x0900_0100)).span();
    assert_eq!(&span[..], &MemoryMap::sectors()[0..1]);
    assert!(!Range(Address(0x0900_0000), Address(0x0900_0100)).is_writable());
}

#[test]
fn range_ending_at_a_sector_start_does_not_reach_into_it() {
    let sectors = MemoryMap::sectors();
    let span = Range(Address(0x0801_0000), Address(0x0802_0000)).span();
    assert_eq!(&span[..], &sectors[4..5]);
    let sector = Sector::new(Block::Main, Address(10), 10usize);
    assert!(!Range(Address(5), Address(10)).overlaps(&sector));
}

#[test]
fn a_range_in_the_unmapped_gap_spans_the_first_sector() {
    let range = Range(Address(0x0810_0000), Address(0x1FFF_0000));
    assert_eq!(&range.span()[..], &MemoryMap::sectors()[0..1]);
    assert!(!range.is_writable());
}

#[test]
fn writable_bounds_are_stable() {
    assert_eq!(MemoryMap::writable_start(), Address(0x0801_0000));
    assert_eq!(MemoryMap::writable_end(), Address(0x0810_0000));
    assert_eq!(MemoryMap::writable_start(), MemoryMap::writable_start());
    assert_eq!(MemoryMap::writable_end(), MemoryMap::writable_end());
}

#[test]
fn ranges_touching_other_blocks_are_not_writable() {
    assert!(!Range(Address(0x0800_FFF0), Address(0x0801_0010)).is_writable());
    assert!(!Range(Address(0x1FFF_0000), Address(0x1FFF_0010)).is_writable());
    assert!(Range(Address(0x080F_0000), Address(0x0810_0000)).is_writable());
}

#[test]
fn validity_of_ranges() {
    assert!(Range(Address(0x0800_0000), Address(0x0800_4000)).is_valid());
    assert!(!Range(Address(0x0800_4000), Address(0x0800_0000)).is_valid());
    assert!(!Range(Address(0x0700_0000), Address(0x0800_0000)).is_valid());
    assert!(!Range(Address(0x1FFF_C010), Address(0x1FFF_D000)).is_valid());
}

#[test]
fn sector_numbers_cover_the_main_memory_area_only() {
    let sectors = MemoryMap::sectors();
    assert_eq!(sectors[0].number(), Some(0));
    assert_eq!(sectors[4].number(), Some(4));
    assert_eq!(sectors[11].number(), Some(11));
    assert_eq!(sectors[12].number(), None);
    assert_eq!(sectors[14].number(), None);
    let stray = Sector::new(Block::Main, Address(0x0801_0000), 16);
    assert_eq!(stray.number(), None);
}

#[test]
fn sector_queries() {
    let s = Sector::new(Block::Main, Address(0x100), 0x20);
    assert_eq!(s.start(), Address(0x100));
    assert_eq!(s.end(), Address(0x120));
    assert!(s.is_writable());
    assert!(s.is_in_main_memory_area());
    assert!(s.contains(Address(0x11F)));
    assert!(!s.contains(Address(0x120)));
    let r = Sector::new(Block::Reserved, Address(0), 4);
    assert!(!r.is_writable());
    assert!(r.is_in_main_memory_area());
    let o = Sector::new(Block::OptionBytes, Address(0), 4);
    assert!(!o.is_in_main_memory_area());
}

#[test]
fn largest_sector_and_soundness() {
    assert_eq!(max_sector_size(), 128 * KB);
    assert!(MemoryMap::new().is_sound());
}

#[test]
fn address_arithmetic_saturates() {
    assert_eq!(Address(10).add(5), Address(15));
    assert_eq!(Address(u32::MAX - 1).add(5), Address(u32::MAX));
    assert_eq!(Address(10).sub(3), Address(7));
    assert_eq!(Address(2).sub(3), Address(0));
    assert_eq!(Address(10).bytes_since(Address(4)), 6);
    assert_eq!(Address(4).bytes_since(Address(10)), 0);
    assert_eq!(Address(42).as_usize(), 42);
}
