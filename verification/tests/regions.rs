use bochservisor::regions::{
    build_regions, page_count, MemoryRegion, PageBacking, PERM_EXECUTE, PERM_READ, PERM_WRITE,
};

const NONE: PageBacking = PageBacking { read: 0, write: 0, execute: 0 };

fn same(host: usize) -> PageBacking {
    PageBacking { read: host, write: host, execute: host }
}

#[test]
fn page_count_needs_whole_pages() {
    assert_eq!(page_count(0x2000), Some(2));
    assert_eq!(page_count(0x2001), None);
    assert_eq!(page_count(0x2fff), None);
    assert_eq!(page_count(0), Some(0));
    assert_eq!(page_count(u64::MAX - 0xfff), Some(0xf_ffff_ffff_ffff));
}

#[test]
fn page_without_backing_resolves_to_nothing() {
    assert_eq!(NONE.resolve(), None);
}

#[test]
fn page_backed_alike_for_all_accesses_has_all_permissions() {
    assert_eq!(same(0x7000).resolve(), Some((0x7000, 7)));
    assert_eq!(PERM_READ | PERM_WRITE | PERM_EXECUTE, 7);
}

#[test]
fn first_backing_in_the_order_read_write_execute_decides() {
    let p = |read, write, execute| PageBacking { read, write, execute }.resolve();
    assert_eq!(p(1, 2, 3), Some((1, PERM_READ)));
    assert_eq!(p(1, 2, 1), Some((1, PERM_READ | PERM_EXECUTE)));
    assert_eq!(p(1, 1, 3), Some((1, PERM_READ | PERM_WRITE)));
    assert_eq!(p(1, 0, 0), Some((1, PERM_READ)));
    assert_eq!(p(0, 2, 3), Some((2, PERM_WRITE)));
    assert_eq!(p(0, 2, 2), Some((2, PERM_WRITE | PERM_EXECUTE)));
    assert_eq!(p(0, 0, 3), Some((3, PERM_EXECUTE)));
}

#[test]
fn linear_pages_are_merged() {
    let pages = [same(0x10000), same(0x11000), same(0x12000)];
    assert_eq!(
        build_regions(&pages),
        vec![MemoryRegion { paddr: 0, backing: 0x10000, perms: 7, size: 0x3000 }]
    );
}

#[test]
fn jump_in_host_memory_starts_a_region() {
    let pages = [same(0x10000), same(0x20000), same(0x21000)];
    assert_eq!(
        build_regions(&pages),
        vec![
            MemoryRegion { paddr: 0, backing: 0x10000, perms: 7, size: 0x1000 },
            MemoryRegion { paddr: 0x1000, backing: 0x20000, perms: 7, size: 0x2000 },
        ]
    );
}

#[test]
fn gap_in_guest_memory_starts_a_region() {
    let pages = [same(0x10000), NONE, same(0x11000)];
    assert_eq!(
        build_regions(&pages),
        vec![
            MemoryRegion { paddr: 0, backing: 0x10000, perms: 7, size: 0x1000 },
            MemoryRegion { paddr: 0x2000, backing: 0x11000, perms: 7, size: 0x1000 },
        ]
    );
}

#[test]
fn change_of_permissions_starts_a_region() {
    let pages = [same(0x10000), PageBacking { read: 0x11000, write: 0, execute: 0x11000 }];
    assert_eq!(
        build_regions(&pages),
        vec![
            MemoryRegion { paddr: 0, backing: 0x10000, perms: 7, size: 0x1000 },
            MemoryRegion { paddr: 0x1000, backing: 0x11000, perms: 5, size: 0x1000 },
        ]
    );
}

#[test]
fn bios_area_is_left_out() {
    let pages: Vec<PageBacking> = (0..0x102usize).map(|k| same(0x100_0000 + k * 0x1000)).collect();
    let regions = build_regions(&pages);
    assert_eq!(
        regions,
        vec![
            MemoryRegion { paddr: 0, backing: 0x100_0000, perms: 7, size: 0xc_0000 },
            MemoryRegion { paddr: 0x10_0000, backing: 0x110_0000, perms: 7, size: 0x2000 },
        ]
    );
    assert_eq!(regions[0].last_addr(), 0xb_ffff);
    assert_eq!(regions[1].last_addr(), 0x10_1fff);
}

#[test]
fn no_pages_give_no_regions() {
    assert_eq!(build_regions(&[]), vec![]);
    assert_eq!(build_regions(&[NONE, NONE]), vec![]);
}

#[test]
fn host_memory_at_the_end_of_the_address_space_is_not_merged_across_it() {
    let last = usize::MAX - 0xfff;
    let regions = build_regions(&[same(last), same(0x1000)]);
    assert_eq!(regions.len(), 2);
}

#[test]
fn regions_map_exactly_the_pages() {
    let pages = [
        same(0x10000),
        same(0x11000),
        NONE,
        PageBacking { read: 0x12000, write: 0x50000, execute: 0x12000 },
        PageBacking { read: 0x13000, write: 0x51000, execute: 0x13000 },
        same(0x14000),
    ];
    let regions = build_regions(&pages);
    for (k, page) in pages.iter().enumerate() {
        let addr = k * 0x1000 + 0x123;
        let holding: Vec<&MemoryRegion> =
            regions.iter().filter(|r| r.paddr <= addr && addr <= r.last_addr()).collect();
        match page.resolve() {
            None => assert!(holding.is_empty()),
            Some((host, perms)) => {
                assert_eq!(holding.len(), 1);
                assert_eq!(holding[0].backing + (addr - holding[0].paddr), host + 0x123);
                assert_eq!(holding[0].perms, perms);
            }
        }
    }
    // Nothing is left to merge
    for a in &regions {
        for b in &regions {
            assert!(
                !(a.perms == b.perms
                    && a.paddr + a.size == b.paddr
                    && a.backing + a.size == b.backing)
            );
        }
    }
}
