//! The guest's physical memory map: which host memory stands behind each
//! page, and the regions that linear runs of pages are merged into.

use vstd::prelude::*;

verus! {

/// Bytes in a page of guest physical memory.
pub const PAGE_SIZE: usize = 4096;

/// First address of the BIOS area, which is never mapped.
pub const BIOS_START: usize = 0x000c_0000;

/// First address behind the BIOS area.
pub const BIOS_END: usize = 0x0010_0000;

/// The guest may read the region.
pub const PERM_READ: i32 = 1;

/// The guest may write the region.
pub const PERM_WRITE: i32 = 2;

/// The guest may execute from the region.
pub const PERM_EXECUTE: i32 = 4;

/// The host addresses that the emulator gives for one page, one for each type
/// of access; 0 where that access has no memory behind it.
#[derive(Clone, Copy, PartialEq, Eq, Structural, Debug)]
pub struct PageBacking {
    /// Host address behind reads
    pub read: usize,
    /// Host address behind writes
    pub write: usize,
    /// Host address behind instruction fetches
    pub execute: usize,
}

/// A run of guest physical memory with linear host memory behind it.
#[derive(Clone, Copy, PartialEq, Eq, Structural, Debug)]
pub struct MemoryRegion {
    /// Physical address of the base of this memory region
    pub paddr: usize,
    /// Host address of the memory behind `paddr`
    pub backing: usize,
    /// Accesses allowed: a sum of `PERM_READ`, `PERM_WRITE`, `PERM_EXECUTE`
    pub perms: i32,
    /// Size of the memory region in bytes
    pub size: usize,
}

impl PageBacking {
    /// Whether any access to the page has memory behind it.
    pub open spec fn is_backed(self) -> bool {
        self.read != 0 || self.write != 0 || self.execute != 0
    }

    /// The host address that the page is mapped to: that of reads if there is
    /// one, else that of writes, else that of fetches.
    pub open spec fn host(self) -> usize {
        if self.read != 0 {
            self.read
        } else if self.write != 0 {
            self.write
        } else {
            self.execute
        }
    }

    /// The accesses that are backed at `host`.
    pub open spec fn perms(self) -> int {
        (if self.read == self.host() { PERM_READ as int } else { 0 })
            + (if self.write == self.host() { PERM_WRITE as int } else { 0 })
            + (if self.execute == self.host() { PERM_EXECUTE as int } else { 0 })
    }

    /// Where a page is mapped, and with which permissions; `None` for a page
    /// without backing.
    pub fn resolve(&self) -> (res: Option<(usize, i32)>)
        ensures
            res is Some <==> self.is_backed(),
            res matches Some((host, perms)) ==> host == self.host() && perms == self.perms(),
            res is None <==> self.read == 0 && self.write == 0 && self.execute == 0,
            res matches Some((host, perms)) ==> {
                &&& self.read != 0 ==> host == self.read
                &&& self.read == 0 && self.write != 0 ==> host == self.write
                &&& self.read == 0 && self.write == 0 ==> host == self.execute
                &&& perms == (if self.read == host {
                    1int
                } else {
                    0
                }) + (if self.write == host {
                    2int
                } else {
                    0
                }) + (if self.execute == host {
                    4int
                } else {
                    0
                })
            },
    {
        if self.read == 0 && self.write == 0 && self.execute == 0 {
            return None;
        }
        let mut backing: Option<usize> = None;
        let mut perms: i32 = 0;
        assert(0i32 | 1i32 == 1i32 && 0i32 | 2i32 == 2i32 && 1i32 | 2i32 == 3i32 && 0i32 | 4i32
            == 4i32 && 1i32 | 4i32 == 5i32 && 2i32 | 4i32 == 6i32 && 3i32 | 4i32 == 7i32)
            by (bit_vector);
        if self.read != 0 {
            backing = Some(self.read);
            perms = perms | PERM_READ;
        }
        if self.write != 0 {
            if let Some(host) = backing {
                // Writable as well if it is backed at the same location
                if host == self.write {
                    perms = perms | PERM_WRITE;
                }
            } else {
                backing = Some(self.write);
                perms = perms | PERM_WRITE;
            }
        }
        if self.execute != 0 {
            if let Some(host) = backing {
                // Executable as well if it is backed at the same location
                if host == self.execute {
                    perms = perms | PERM_EXECUTE;
                }
            } else {
                backing = Some(self.execute);
                perms = perms | PERM_EXECUTE;
            }
        }
        match backing {
            Some(host) => Some((host, perms)),
            None => None,
        }
    }
}

impl MemoryRegion {
    /// The first address behind the region.
    pub open spec fn end(self) -> int {
        self.paddr + self.size
    }

    /// Whether the guest physical address `addr` lies in the region.
    pub open spec fn contains(self, addr: int) -> bool {
        self.paddr <= addr < self.end()
    }

    /// The host address behind the guest physical address `addr`.
    pub open spec fn host_of(self, addr: int) -> int {
        self.backing + (addr - self.paddr)
    }

    /// Whether memory at `paddr` with `host` behind it carries the region on:
    /// linear in guest and in host memory, with the same permissions.
    pub open spec fn continues(self, paddr: int, host: int, perms: int) -> bool {
        self.perms == perms && self.end() == paddr && self.host_of(paddr) == host
    }

    /// The region with one more page at its end.
    pub open spec fn grown(self) -> MemoryRegion {
        MemoryRegion { size: (self.size + PAGE_SIZE) as usize, ..self }
    }

    /// The last address in the region.
    pub fn last_addr(&self) -> (res: usize)
        requires
            0 < self.size,
            self.end() - 1 <= usize::MAX,
        ensures
            res == self.end() - 1,
            res + 1 == self.paddr + self.size,
    {
        self.paddr + (self.size - 1)
    }
}

/// Where the page at `paddr` is mapped, and with which permissions; `None` if
/// it stays unmapped, for want of backing or because the BIOS area holds it.
pub open spec fn mapping(page: PageBacking, paddr: int) -> Option<(usize, i32)> {
    if !page.is_backed() || BIOS_START <= paddr < BIOS_END {
        None
    } else {
        Some((page.host(), page.perms() as i32))
    }
}

/// `regions` after the page at `paddr` has been looked at: unchanged if the
/// page stays unmapped, with a region grown if the page carries one on, and
/// with a region of its own otherwise.
pub open spec fn with_page(
    regions: Seq<MemoryRegion>,
    paddr: int,
    page: PageBacking,
) -> Seq<MemoryRegion> {
    match mapping(page, paddr) {
        None => regions,
        Some((host, perms)) => if exists|i: int|
            0 <= i < regions.len() && #[trigger] regions[i].continues(
                paddr,
                host as int,
                perms as int,
            ) {
            let i = choose|i: int|
                0 <= i < regions.len() && #[trigger] regions[i].continues(
                    paddr,
                    host as int,
                    perms as int,
                );
            regions.update(i, regions[i].grown())
        } else {
            regions.push(
                MemoryRegion { paddr: paddr as usize, backing: host, perms, size: PAGE_SIZE },
            )
        },
    }
}

/// The regions of a guest whose physical memory consists of `pages`, the first
/// of them at address 0.
pub open spec fn regions_of(pages: Seq<PageBacking>) -> Seq<MemoryRegion>
    decreases pages.len(),
{
    if pages.len() == 0 {
        Seq::empty()
    } else {
        with_page(
            regions_of(pages.drop_last()),
            (pages.len() - 1) * PAGE_SIZE,
            pages.last(),
        )
    }
}

/// Regions in ascending order that do not overlap, none of them empty, all of
/// them below `limit`.
pub open spec fn ascending(regions: Seq<MemoryRegion>, limit: int) -> bool {
    &&& forall|i: int|
        0 <= i < regions.len() ==> 0 < (#[trigger] regions[i]).size && regions[i].end() <= limit
    &&& forall|i: int, j: int|
        0 <= i < j < regions.len() ==> (#[trigger] regions[i]).end() <= (
        #[trigger] regions[j]).paddr
}

/// In ascending regions only the last one can be carried on from their end.
proof fn lemma_only_last_continues(
    regions: Seq<MemoryRegion>,
    i: int,
    paddr: int,
    host: int,
    perms: int,
)
    requires
        ascending(regions, paddr),
        0 <= i < regions.len(),
        regions[i].continues(paddr, host, perms),
    ensures
        i == regions.len() - 1,
{
    let last = regions.len() - 1;
    if i < last {
        assert(regions[i].end() <= regions[last].paddr);
    }
}

/// Adds the page at `paddr` to `regions`.
fn add_page(regions: &mut Vec<MemoryRegion>, paddr: usize, page: &PageBacking)
    requires
        ascending(old(regions)@, paddr as int),
        paddr + PAGE_SIZE <= usize::MAX,
    ensures
        final(regions)@ == with_page(old(regions)@, paddr as int, *page),
        ascending(final(regions)@, paddr + PAGE_SIZE),
{
    let (host, perms): (usize, i32) = match page.resolve() {
        Some(resolved) => resolved,
        None => return,
    };
    // There are read/write states of the BIOS area that a mapping cannot hold
    if paddr >= BIOS_START && paddr < BIOS_END {
        return;
    }
    let ghost before = regions@;
    let mut i: usize = 0;
    while i < regions.len()
        invariant
            i <= regions.len(),
            regions@ == before,
            before == old(regions)@,
            ascending(before, paddr as int),
            paddr + PAGE_SIZE <= usize::MAX,
            mapping(*page, paddr as int) == Some((host, perms)),
            forall|j: int|
                0 <= j < i ==> !(#[trigger] before[j]).continues(
                    paddr as int,
                    host as int,
                    perms as int,
                ),
        decreases regions.len() - i,
    {
        let mr: MemoryRegion = regions[i];
        assert(before[i as int] == mr);
        if mr.perms == perms && mr.paddr + mr.size == paddr && host >= mr.backing && host
            - mr.backing == mr.size {
            // Contiguous in both physical and backing memory
            proof {
                assert(before[i as int].continues(paddr as int, host as int, perms as int));
                let k = choose|k: int|
                    0 <= k < before.len() && #[trigger] before[k].continues(
                        paddr as int,
                        host as int,
                        perms as int,
                    );
                lemma_only_last_continues(
                    before,
                    i as int,
                    paddr as int,
                    host as int,
                    perms as int,
                );
                lemma_only_last_continues(before, k, paddr as int, host as int, perms as int);
            }
            regions.set(
                i,
                MemoryRegion {
                    paddr: mr.paddr,
                    backing: mr.backing,
                    perms: mr.perms,
                    size: mr.size + PAGE_SIZE,
                },
            );
            return;
        }
        i = i + 1;
    }
    // Extends no region: a new one
    regions.push(MemoryRegion { paddr, backing: host, perms, size: PAGE_SIZE });
}

/// Merges the pages of guest physical memory into regions. `pages[k]` is the
/// backing of the page at address `k * PAGE_SIZE`.
pub fn build_regions(pages: &[PageBacking]) -> (regions: Vec<MemoryRegion>)
    requires
        pages@.len() * PAGE_SIZE <= usize::MAX,
    ensures
        regions@ == regions_of(pages@),
{
    let mut regions: Vec<MemoryRegion> = Vec::new();
    let mut k: usize = 0;
    proof {
        assert(pages@.take(0) =~= Seq::<PageBacking>::empty());
    }
    while k < pages.len()
        invariant
            k <= pages@.len(),
            pages@.len() * PAGE_SIZE <= usize::MAX,
            regions@ == regions_of(pages@.take(k as int)),
            ascending(regions@, k * PAGE_SIZE),
        decreases pages@.len() - k,
    {
        add_page(&mut regions, k * PAGE_SIZE, &pages[k]);
        proof {
            let next = pages@.take(k + 1);
            assert(next.drop_last() =~= pages@.take(k as int));
            assert(next.last() == pages@[k as int]);
        }
        k = k + 1;
    }
    proof {
        assert(pages@.take(k as int) =~= pages@);
    }
    regions
}

/// The number of pages in `pmem_size` bytes of guest physical memory; `None`
/// if that is not a whole number of pages.
pub fn page_count(pmem_size: u64) -> (res: Option<u64>)
    ensures
        res is Some <==> pmem_size as int % PAGE_SIZE as int == 0,
        res matches Some(count) ==> count * PAGE_SIZE == pmem_size,
{
    assert(pmem_size & 0xfff == pmem_size % 0x1000) by (bit_vector);
    if pmem_size & 0xfff == 0 {
        Some(pmem_size / 0x1000)
    } else {
        None
    }
}

/// Whether `region` is one that `pages` give: whole pages, with memory behind
/// them, each of them mapped as its backing says.
pub open spec fn describes(pages: Seq<PageBacking>, region: MemoryRegion) -> bool {
    &&& region.paddr as int % PAGE_SIZE as int == 0
    &&& region.size as int % PAGE_SIZE as int == 0
    &&& 0 < region.size
    &&& 0 < region.backing
    &&& region.end() <= pages.len() * PAGE_SIZE
    &&& forall|k: int|
        0 <= k < pages.len() && region.contains(k * PAGE_SIZE) ==> (mapping(
            #[trigger] pages[k],
            k * PAGE_SIZE,
        ) matches Some((host, perms)) && host == region.host_of(k * PAGE_SIZE) && perms
            == region.perms)
}

/// Whether some region holds the guest physical address `addr`.
pub open spec fn covered(regions: Seq<MemoryRegion>, addr: int) -> bool {
    exists|i: int| 0 <= i < regions.len() && #[trigger] regions[i].contains(addr)
}

/// What holds of the regions of `pages`, whatever the pages are.
proof fn lemma_regions_of(pages: Seq<PageBacking>)
    requires
        pages.len() * PAGE_SIZE <= usize::MAX,
    ensures
        ascending(regions_of(pages), pages.len() * PAGE_SIZE),
        forall|i: int|
            0 <= i < regions_of(pages).len() ==> describes(pages, #[trigger] regions_of(pages)[i]),
        forall|k: int|
            0 <= k < pages.len() && mapping(#[trigger] pages[k], k * PAGE_SIZE) is Some ==> covered(
                regions_of(pages),
                k * PAGE_SIZE,
            ),
        forall|i: int, j: int|
            0 <= i < regions_of(pages).len() && 0 <= j < regions_of(pages).len() ==> !(
            #[trigger] regions_of(pages)[i]).continues(
                (#[trigger] regions_of(pages)[j]).paddr as int,
                regions_of(pages)[j].backing as int,
                regions_of(pages)[j].perms as int,
            ),
    decreases pages.len(),
{
    if pages.len() > 0 {
        let prefix = pages.drop_last();
        let old_regions = regions_of(prefix);
        let new_regions = regions_of(pages);
        let paddr = (pages.len() - 1) * PAGE_SIZE;
        let page = pages.last();
        lemma_regions_of(prefix);
        assert forall|k: int| 0 <= k < prefix.len() implies prefix[k] == #[trigger] pages[k] by {}
        match mapping(page, paddr) {
            None => {
                assert(new_regions == old_regions);
            },
            Some((host, perms)) => {
                if exists|i: int|
                    0 <= i < old_regions.len() && #[trigger] old_regions[i].continues(
                        paddr,
                        host as int,
                        perms as int,
                    ) {
                    let i = choose|i: int|
                        0 <= i < old_regions.len() && #[trigger] old_regions[i].continues(
                            paddr,
                            host as int,
                            perms as int,
                        );
                    lemma_only_last_continues(old_regions, i, paddr, host as int, perms as int);
                    assert(new_regions[i].contains(paddr));
                } else {
                    assert(new_regions[old_regions.len() as int].contains(paddr));
                }
            },
        }
        assert forall|i: int| 0 <= i < new_regions.len() implies describes(
            pages,
            #[trigger] new_regions[i],
        ) by {
            if i < old_regions.len() {
                assert(describes(prefix, old_regions[i]));
            }
        }
        assert forall|k: int|
            0 <= k < pages.len() && mapping(#[trigger] pages[k], k * PAGE_SIZE) is Some implies covered(
            new_regions,
            k * PAGE_SIZE,
        ) by {
            if k < prefix.len() {
                assert(mapping(prefix[k], k * PAGE_SIZE) is Some);
                assert(covered(old_regions, k * PAGE_SIZE));
                let i = choose|i: int|
                    0 <= i < old_regions.len() && #[trigger] old_regions[i].contains(k * PAGE_SIZE);
                assert(new_regions[i].contains(k * PAGE_SIZE));
            }
        }
    }
}

/// The permissions of a backed page, taken bit by bit: an access is allowed if
/// and only if it is backed at the address that the page is mapped to. At least
/// one access is.
pub proof fn law_permissions_are_those_backed_at_the_host_address(page: PageBacking)
    requires
        page.is_backed(),
    ensures
        ({
            let perms = page.perms() as i32;
            &&& perms & PERM_READ != 0 <==> page.read == page.host()
            &&& perms & PERM_WRITE != 0 <==> page.write == page.host()
            &&& perms & PERM_EXECUTE != 0 <==> page.execute == page.host()
            &&& perms != 0
        }),
{
    let perms = page.perms() as i32;
    assert((perms & 1 != 0) == (perms == 1 || perms == 3 || perms == 5 || perms == 7) && (perms & 2
        != 0) == (perms == 2 || perms == 3 || perms == 6 || perms == 7) && (perms & 4 != 0) == (
    perms == 4 || perms == 5 || perms == 6 || perms == 7)) by (bit_vector)
        requires
            0 <= perms <= 7,
    ;
}

/// Every region consists of whole pages, is not empty, has host memory behind
/// it, lies within guest physical memory, and maps each of its pages as the
/// page's backing says.
pub proof fn law_regions_are_sound(pages: Seq<PageBacking>, i: int)
    requires
        pages.len() * PAGE_SIZE <= usize::MAX,
        0 <= i < regions_of(pages).len(),
    ensures
        describes(pages, regions_of(pages)[i]),
{
    lemma_regions_of(pages);
}

/// The regions stand in ascending order and no address lies in two of them.
pub proof fn law_regions_are_disjoint(pages: Seq<PageBacking>)
    requires
        pages.len() * PAGE_SIZE <= usize::MAX,
    ensures
        ascending(regions_of(pages), pages.len() * PAGE_SIZE),
        forall|i: int, j: int, addr: int|
            0 <= i < regions_of(pages).len() && 0 <= j < regions_of(pages).len()
                && #[trigger] regions_of(pages)[i].contains(addr)
                && #[trigger] regions_of(pages)[j].contains(addr) ==> i == j,
{
    lemma_regions_of(pages);
    assert forall|i: int, j: int, addr: int|
        0 <= i < regions_of(pages).len() && 0 <= j < regions_of(pages).len()
            && #[trigger] regions_of(pages)[i].contains(addr)
            && #[trigger] regions_of(pages)[j].contains(addr) implies i == j by {
        if i < j {
            assert(regions_of(pages)[i].end() <= regions_of(pages)[j].paddr);
        } else if j < i {
            assert(regions_of(pages)[j].end() <= regions_of(pages)[i].paddr);
        }
    }
}

/// The regions hold exactly the mapped pages: an address lies in a region if
/// and only if its page is mapped, and every region that holds the address
/// gives it the page's permissions and its place in the page's host memory.
pub proof fn law_regions_map_exactly_the_pages(pages: Seq<PageBacking>, addr: int)
    requires
        pages.len() * PAGE_SIZE <= usize::MAX,
        0 <= addr < pages.len() * PAGE_SIZE,
    ensures
        ({
            let base = addr - addr % PAGE_SIZE as int;
            let page = pages[addr / PAGE_SIZE as int];
            &&& covered(regions_of(pages), addr) <==> mapping(page, base) is Some
            &&& forall|i: int|
                0 <= i < regions_of(pages).len() && #[trigger] regions_of(pages)[i].contains(addr)
                    ==> (mapping(page, base) matches Some((host, perms))
                    && regions_of(pages)[i].perms == perms
                    && regions_of(pages)[i].host_of(addr) == host + addr % PAGE_SIZE as int)
        }),
{
    lemma_regions_of(pages);
    let regions = regions_of(pages);
    let k = addr / PAGE_SIZE as int;
    let base = addr - addr % PAGE_SIZE as int;
    assert(base == k * PAGE_SIZE && 0 <= k < pages.len());
    assert forall|i: int| 0 <= i < regions.len() implies (#[trigger] regions[i]).contains(addr)
        == regions[i].contains(base) by {
        assert(describes(pages, regions[i]));
    }
    if mapping(pages[k], base) is Some {
        assert(covered(regions, base));
        let i = choose|i: int| 0 <= i < regions.len() && #[trigger] regions[i].contains(base);
        assert(regions[i].contains(addr));
    }
    assert forall|i: int|
        0 <= i < regions.len() && #[trigger] regions[i].contains(addr) implies (mapping(
        pages[k],
        base,
    ) matches Some((host, perms)) && regions[i].perms == perms && regions[i].host_of(addr) == host
        + addr % PAGE_SIZE as int) by {
        assert(describes(pages, regions[i]));
        assert(regions[i].contains(k * PAGE_SIZE));
        assert(mapping(pages[k], k * PAGE_SIZE) is Some);
    }
}

/// No address of the BIOS area lies in a region.
pub proof fn law_bios_stays_unmapped(pages: Seq<PageBacking>, addr: int)
    requires
        pages.len() * PAGE_SIZE <= usize::MAX,
        BIOS_START <= addr < BIOS_END,
    ensures
        !covered(regions_of(pages), addr),
{
    lemma_regions_of(pages);
    if covered(regions_of(pages), addr) {
        let i = choose|i: int|
            0 <= i < regions_of(pages).len() && #[trigger] regions_of(pages)[i].contains(addr);
        assert(describes(pages, regions_of(pages)[i]));
        law_regions_map_exactly_the_pages(pages, addr);
    }
}

/// Nothing is left to merge: no region carries on another one.
pub proof fn law_regions_are_maximal(pages: Seq<PageBacking>, i: int, j: int)
    requires
        pages.len() * PAGE_SIZE <= usize::MAX,
        0 <= i < regions_of(pages).len(),
        0 <= j < regions_of(pages).len(),
    ensures
        !regions_of(pages)[i].continues(
            regions_of(pages)[j].paddr as int,
            regions_of(pages)[j].backing as int,
            regions_of(pages)[j].perms as int,
        ),
{
    lemma_regions_of(pages);
}

/// Whether an address is mapped, and where to, told by the backing of its page
/// alone. An address lies in a region if and only if some access to its page is
/// backed and it is outside of 0xc0000 to 0xfffff. The region leads to the page's
/// host memory for reads, else for writes, else for fetches, and allows exactly
/// the accesses that are backed there. No region reaches beyond the pages.
pub proof fn law_backed_pages_are_mapped_to_their_backing(pages: Seq<PageBacking>, addr: int)
    requires
        pages.len() * 4096 <= usize::MAX,
    ensures
        (exists|i: int|
            0 <= i < regions_of(pages).len() && (#[trigger] regions_of(pages)[i]).paddr <= addr
                && addr < regions_of(pages)[i].paddr + regions_of(pages)[i].size) <==> 0 <= addr
            < pages.len() * 4096 && !(0xc_0000 <= addr < 0x10_0000) && (pages[addr / 4096].read != 0
            || pages[addr / 4096].write != 0 || pages[addr / 4096].execute != 0),
        forall|i: int|
            0 <= i < regions_of(pages).len() && (#[trigger] regions_of(pages)[i]).paddr <= addr
                && addr < regions_of(pages)[i].paddr + regions_of(pages)[i].size ==> {
                let region = regions_of(pages)[i];
                let page = pages[addr / 4096];
                let host = region.backing + (addr - region.paddr) - addr % 4096;
                &&& page.read != 0 ==> host == page.read
                &&& page.read == 0 && page.write != 0 ==> host == page.write
                &&& page.read == 0 && page.write == 0 ==> host == page.execute
                &&& region.perms == (if page.read == host {
                    1int
                } else {
                    0
                }) + (if page.write == host {
                    2int
                } else {
                    0
                }) + (if page.execute == host {
                    4int
                } else {
                    0
                })
            },
{
    let regions = regions_of(pages);
    lemma_regions_of(pages);
    if 0 <= addr < pages.len() * 4096 {
        law_regions_map_exactly_the_pages(pages, addr);
        let base = addr - addr % 4096;
        assert(0xc_0000 <= addr < 0x10_0000 <==> 0xc_0000 <= base < 0x10_0000);
        if covered(regions, addr) {
            let i = choose|i: int| 0 <= i < regions.len() && #[trigger] regions[i].contains(addr);
            assert(regions[i].paddr <= addr < regions[i].paddr + regions[i].size);
        }
    }
    assert forall|i: int|
        0 <= i < regions.len() && (#[trigger] regions[i]).paddr <= addr && addr
            < regions[i].paddr + regions[i].size implies regions[i].contains(addr) && 0 <= addr
        < pages.len() * 4096 by {
        assert(describes(pages, regions[i]));
    }
}

/// The regions are as few as can be, and stand in order: none is empty, each ends
/// before the next begins, and where one begins right where another ends, host
/// memory does not go on, or the permissions differ.
pub proof fn law_regions_stand_apart(pages: Seq<PageBacking>, i: int, j: int)
    requires
        pages.len() * 4096 <= usize::MAX,
        0 <= i < j < regions_of(pages).len(),
    ensures
        regions_of(pages)[i].size > 0,
        regions_of(pages)[j].size > 0,
        regions_of(pages)[i].paddr + regions_of(pages)[i].size <= regions_of(pages)[j].paddr,
        regions_of(pages)[i].paddr + regions_of(pages)[i].size == regions_of(pages)[j].paddr ==> (
        regions_of(pages)[i].backing + regions_of(pages)[i].size != regions_of(pages)[j].backing
            || regions_of(pages)[i].perms != regions_of(pages)[j].perms),
{
    lemma_regions_of(pages);
    law_regions_are_maximal(pages, i, j);
}

} // verus!
