use bochservisor::mem_reader::{MappedRegion, MemReader};
use bochservisor::regions::{build_regions, PageBacking};
use bochservisor::virtmem::{from_le_bytes, PageTable};

fn counting(len: usize, seed: usize) -> Vec<u8> {
    (0..len).map(|i| (i * 7 + seed) as u8).collect()
}

fn put(mem: &mut [u8], at: usize, entry: u64) {
    mem[at..at + 8].copy_from_slice(&entry.to_le_bytes());
}

/// Memory with tables at 0x1000 (top level), 0x2000, 0x3000 and 0x4000.
/// Virtual 0x40_0000 lies at 0x6000, 0x40_1000 at 0x5000, 0x40_2000 nowhere.
fn guest() -> Vec<u8> {
    let mut mem = counting(0x8000, 3);
    for at in 0x1000..0x5000 {
        mem[at] = 0;
    }
    put(&mut mem, 0x1000, 0x2000 | 0x67);
    put(&mut mem, 0x2000, 0x3000 | 0x67);
    put(&mut mem, 0x3000 + 2 * 8, 0x4000 | 0x67);
    put(&mut mem, 0x4000, 0x6000 | 0x8000_0000_0000_0067);
    put(&mut mem, 0x4000 + 8, 0x5000 | 0x67);
    mem
}

#[test]
fn physical_read_inside_a_region() {
    let bytes = counting(0x100, 1);
    let mem = MemReader::new(vec![MappedRegion { paddr: 0x1000, bytes: &bytes }]);
    let mut out = [0u8; 4];
    assert_eq!(mem.read_phys(0x1010, &mut out), 4);
    assert_eq!(out, [113, 120, 127, 134]);
}

#[test]
fn physical_read_goes_on_in_the_next_region() {
    let low = [1u8, 2, 3];
    let high = [4u8, 5, 6];
    let mem = MemReader::new(vec![
        MappedRegion { paddr: 13, bytes: &high },
        MappedRegion { paddr: 10, bytes: &low },
    ]);
    let mut out = [0u8; 5];
    assert_eq!(mem.read_phys(11, &mut out), 5);
    assert_eq!(out, [2, 3, 4, 5, 6]);
}

#[test]
fn physical_read_stops_where_nothing_is_mapped() {
    let bytes = [1u8, 2, 3];
    let mem = MemReader::new(vec![MappedRegion { paddr: 10, bytes: &bytes }]);
    let mut out = [9u8; 4];
    assert_eq!(mem.read_phys(11, &mut out), 2);
    assert_eq!(out, [2, 3, 9, 9]);
    let mut out = [9u8; 2];
    assert_eq!(mem.read_phys(13, &mut out), 0);
    assert_eq!(out, [9, 9]);
    assert_eq!(mem.read_phys(9, &mut out), 0);
    assert_eq!(MemReader::default().read_phys(0, &mut out), 0);
}

#[test]
fn first_listed_of_overlapping_regions_wins() {
    let a = [1u8, 2];
    let b = [9u8, 9, 8, 7];
    let mem = MemReader::new(vec![
        MappedRegion { paddr: 0x1000, bytes: &a },
        MappedRegion { paddr: 0x1000, bytes: &b },
    ]);
    let mut out = [0u8; 2];
    assert_eq!(mem.read_phys(0x1000, &mut out), 2);
    assert_eq!(out, [1, 2]);
    // Behind its end the next one goes on
    let mut out = [0u8; 5];
    assert_eq!(mem.read_phys(0x1000, &mut out), 4);
    assert_eq!(out, [1, 2, 8, 7, 0]);
    // A region that was started is read to its end
    let mem = MemReader::new(vec![
        MappedRegion { paddr: 0x1002, bytes: &a },
        MappedRegion { paddr: 0x1000, bytes: &b },
    ]);
    let mut out = [0u8; 4];
    assert_eq!(mem.read_phys(0x1000, &mut out), 4);
    assert_eq!(out, [9, 9, 8, 7]);
    assert_eq!(mem.read_phys(0x1002, &mut out), 2);
    assert_eq!(out, [1, 2, 8, 7]);
}

#[test]
fn physical_read_at_the_end_of_the_address_space() {
    let bytes = [1u8, 2];
    let mem = MemReader::new(vec![MappedRegion { paddr: usize::MAX - 1, bytes: &bytes }]);
    let mut out = [0u8; 4];
    assert_eq!(mem.read_phys(usize::MAX - 1, &mut out), 2);
    assert_eq!(out, [1, 2, 0, 0]);
}

#[test]
fn two_physical_reads_do_what_one_does() {
    let low = counting(20, 5);
    let high = counting(20, 90);
    let mem = MemReader::new(vec![
        MappedRegion { paddr: 100, bytes: &low },
        MappedRegion { paddr: 120, bytes: &high },
    ]);
    let mut whole = [0u8; 30];
    assert_eq!(mem.read_phys(105, &mut whole), 30);
    let mut parts = [0u8; 30];
    let (first, second) = parts.split_at_mut(18);
    assert_eq!(mem.read_phys(105, first), 18);
    assert_eq!(mem.read_phys(123, second), 12);
    assert_eq!(whole, parts);
}

#[test]
fn integers_are_little_endian() {
    assert_eq!(from_le_bytes(&[0x88, 0x77, 0x66, 0x55, 0x44, 0x33, 0x22, 0x11]), 0x1122_3344_5566_7788);
    assert_eq!(from_le_bytes(&[0xff; 8]), u64::MAX);
    let bytes = [0u8, 0x88, 0x77, 0x66, 0x55, 0x44, 0x33, 0x22, 0x11];
    let mem = MemReader::new(vec![MappedRegion { paddr: 0, bytes: &bytes }]);
    assert_eq!(mem.read_phys_int(1), Ok(0x1122_3344_5566_7788));
    assert_eq!(mem.read_phys_int(0), Ok(0x2233_4455_6677_8800));
}

#[test]
fn small_pages_are_translated() {
    let bytes = guest();
    let mem = MemReader::new(vec![MappedRegion { paddr: 0, bytes: &bytes }]);
    let table = PageTable::from_existing(0x1000, &mem);
    assert_eq!(table.virt_to_phys(0x40_0000), Some(0x6000));
    assert_eq!(table.virt_to_phys(0x40_0abc), Some(0x6abc));
    assert_eq!(table.virt_to_phys(0x40_1fff), Some(0x5fff));
    assert_eq!(table.virt_to_phys(0x40_2000), None);
    assert_eq!(table.virt_to_phys(0x20_0000), None);
    assert_eq!(table.virt_to_phys(0x4000_0000), None);
    assert_eq!(table.virt_to_phys(0x80_0000_0000), None);
}

#[test]
fn flags_in_cr3_do_not_count() {
    let bytes = guest();
    let mem = MemReader::new(vec![MappedRegion { paddr: 0, bytes: &bytes }]);
    let table = PageTable::from_existing(0x8000_0000_0000_1018, &mem);
    assert_eq!(table.virt_to_phys(0x40_0abc), Some(0x6abc));
}

#[test]
fn large_pages_are_translated() {
    let mut bytes = guest();
    put(&mut bytes, 0x2000 + 3 * 8, 0x1_4000_0000 | 0xe7);
    put(&mut bytes, 0x3000 + 5 * 8, 0x1260_0000 | 0xe7);
    let mem = MemReader::new(vec![MappedRegion { paddr: 0, bytes: &bytes }]);
    let table = PageTable::from_existing(0x1000, &mem);
    assert_eq!(table.virt_to_phys(3 * 0x4000_0000 + 0x123_4567), Some(0x1_4123_4567));
    assert_eq!(table.virt_to_phys(5 * 0x20_0000 + 0x1_2345), Some(0x1261_2345));
}

#[test]
fn top_level_maps_no_large_page() {
    let mut bytes = guest();
    put(&mut bytes, 0x1000, 0x2000 | 0xe7);
    let mem = MemReader::new(vec![MappedRegion { paddr: 0, bytes: &bytes }]);
    assert_eq!(PageTable::from_existing(0x1000, &mem).virt_to_phys(0x40_0000), None);
}

#[test]
fn addresses_must_be_canonical() {
    let mut bytes = guest();
    put(&mut bytes, 0x1000 + 511 * 8, 0x2000 | 0x67);
    put(&mut bytes, 0x1000 + 256 * 8, 0x2000 | 0x67);
    put(&mut bytes, 0x1000 + 255 * 8, 0x2000 | 0x67);
    let mem = MemReader::new(vec![MappedRegion { paddr: 0, bytes: &bytes }]);
    let table = PageTable::from_existing(0x1000, &mem);
    assert_eq!(table.virt_to_phys(0xffff_ff80_0040_0abc), Some(0x6abc));
    assert_eq!(table.virt_to_phys(0xffff_8000_0040_0abc), Some(0x6abc));
    assert_eq!(table.virt_to_phys(0x7f80_0040_0abc), Some(0x6abc));
    assert_eq!(table.virt_to_phys(0x8000_0040_0abc), None);
    assert_eq!(table.virt_to_phys(0x7fff_8000_0040_0abc), None);
}

#[test]
fn table_without_memory_gives_no_translation() {
    let mut bytes = guest();
    put(&mut bytes, 0x2000, 0x90_0000 | 0x67);
    let mem = MemReader::new(vec![MappedRegion { paddr: 0, bytes: &bytes }]);
    assert_eq!(PageTable::from_existing(0x1000, &mem).virt_to_phys(0x40_0000), None);
    assert_eq!(PageTable::from_existing(0x90_0000, &mem).virt_to_phys(0x40_0000), None);
}

#[test]
fn virtual_read_crosses_pages() {
    let bytes = guest();
    let mem = MemReader::new(vec![MappedRegion { paddr: 0, bytes: &bytes }]);
    let mut out = [0u8; 6];
    assert_eq!(mem.read_virt(0x1000, 0x40_0ffd, &mut out), 6);
    assert_eq!(out[..3], bytes[0x6ffd..0x7000]);
    assert_eq!(out[3..], bytes[0x5000..0x5003]);
    // Two reads do what one does
    let mut parts = [0u8; 6];
    let (first, second) = parts.split_at_mut(2);
    assert_eq!(mem.read_virt(0x1000, 0x40_0ffd, first), 2);
    assert_eq!(mem.read_virt(0x1000, 0x40_0fff, second), 4);
    assert_eq!(out, parts);
}

#[test]
fn virtual_read_stops_at_an_unmapped_page() {
    let bytes = guest();
    let mem = MemReader::new(vec![MappedRegion { paddr: 0, bytes: &bytes }]);
    let mut out = [9u8; 6];
    assert_eq!(mem.read_virt(0x1000, 0x40_1ffe, &mut out), 2);
    assert_eq!(out[..2], bytes[0x5ffe..0x6000]);
    assert_eq!(out[2..], [9, 9, 9, 9]);
    assert_eq!(mem.read_virt(0x1000, 0x40_2000, &mut out), 0);
    assert_eq!(mem.read_virt(0x1000, 0x40_0000, &mut []), 0);
}

#[test]
fn virtual_read_stops_where_there_is_no_memory() {
    let mut bytes = guest();
    put(&mut bytes, 0x4000 + 8, 0x7000 | 0x67);
    bytes.truncate(0x7004);
    let mem = MemReader::new(vec![MappedRegion { paddr: 0, bytes: &bytes }]);
    let mut out = [9u8; 6];
    assert_eq!(mem.read_virt(0x1000, 0x40_1000, &mut out), 4);
    assert_eq!(out[..4], bytes[0x7000..0x7004]);
    assert_eq!(out[4..], [9, 9]);
}

#[test]
fn virtual_read_stops_at_the_end_of_the_address_space() {
    let mut bytes = guest();
    put(&mut bytes, 0x1000 + 511 * 8, 0x2000 | 0x67);
    put(&mut bytes, 0x2000 + 511 * 8, 0x3000 | 0x67);
    put(&mut bytes, 0x3000 + 511 * 8, 0x4000 | 0x67);
    put(&mut bytes, 0x4000 + 511 * 8, 0x5000 | 0x67);
    let mem = MemReader::new(vec![MappedRegion { paddr: 0, bytes: &bytes }]);
    let mut out = [9u8; 6];
    assert_eq!(mem.read_virt(0x1000, usize::MAX - 1, &mut out), 2);
    assert_eq!(out[..2], bytes[0x5ffe..0x6000]);
    assert_eq!(out[2..], [9, 9, 9, 9]);
}

#[test]
fn virtual_page_at_physical_address_zero_can_be_read() {
    let mut bytes = guest();
    put(&mut bytes, 0x4000 + 8, 0x67);
    let mem = MemReader::new(vec![MappedRegion { paddr: 0, bytes: &bytes }]);
    let mut out = [0u8; 4];
    assert_eq!(mem.read_virt(0x1000, 0x40_1000, &mut out), 4);
    assert_eq!(out, bytes[0..4]);
}

#[test]
fn virtual_integer() {
    let mut bytes = guest();
    put(&mut bytes, 0x6ff8, 0x1122_3344_5566_7788);
    put(&mut bytes, 0x5ff8, 0xffff_ffff_0000_0001);
    let mem = MemReader::new(vec![MappedRegion { paddr: 0, bytes: &bytes }]);
    assert_eq!(mem.read_virt_usize(0x1000, 0x40_0ff8), Ok(0x1122_3344_5566_7788));
    assert_eq!(mem.read_virt_usize(0x1000, 0x40_1ff8), Ok(0xffff_ffff_0000_0001));
    // Across two pages
    let both = [&bytes[0x6ffc..0x7000], &bytes[0x5000..0x5004]].concat();
    let value = both.iter().rev().fold(0usize, |value, b| value << 8 | *b as usize);
    assert_eq!(mem.read_virt_usize(0x1000, 0x40_0ffc), Ok(value));
}

#[test]
fn reader_of_built_regions_reads_the_mapped_pages() {
    let host = counting(0x4000, 11);
    let page = |at: usize| PageBacking { read: 0x10_0000 + at, write: 0x10_0000 + at, execute: 0 };
    let none = PageBacking { read: 0, write: 0, execute: 0 };
    // The third page of the guest is the first of the host's memory
    let pages = [page(0x1000), page(0x2000), page(0), none, page(0x3000)];
    let regions = build_regions(&pages);
    assert_eq!(regions.len(), 3);
    let mapped = regions
        .iter()
        .map(|r| {
            let at = r.backing - 0x10_0000;
            MappedRegion { paddr: r.paddr, bytes: &host[at..at + r.size] }
        })
        .collect();
    let mem = MemReader::new(mapped);
    let mut out = vec![0u8; 0x5000];
    assert_eq!(mem.read_phys(0, &mut out), 0x3000);
    assert_eq!(out[..0x2000], host[0x1000..0x3000]);
    assert_eq!(out[0x2000..0x3000], host[..0x1000]);
    assert_eq!(mem.read_phys(0x3fff, &mut out), 0);
    assert_eq!(mem.read_phys(0x4000, &mut out), 0x1000);
    assert_eq!(out[..0x1000], host[0x3000..]);
    assert_eq!(mem.read_phys(0x5000, &mut out), 0);
}

#[test]
fn virtual_read_of_a_page_is_a_physical_read() {
    let bytes = guest();
    let mem = MemReader::new(vec![MappedRegion { paddr: 0, bytes: &bytes }]);
    let mut virt = vec![0u8; 0xf00];
    let mut phys = vec![0u8; 0xf00];
    assert_eq!(mem.read_virt(0x1000, 0x40_0100, &mut virt), 0xf00);
    assert_eq!(mem.read_phys(0x6100, &mut phys), 0xf00);
    assert_eq!(virt, phys);
}
