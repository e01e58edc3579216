//! Reads of guest memory, by physical and by virtual address.

use vstd::prelude::*;

use crate::regions::{
    MemoryRegion, PAGE_SIZE, PageBacking, covered, law_regions_are_disjoint,
    law_regions_map_exactly_the_pages, mapping, regions_of,
};
use crate::virtmem::{
    PageTable, from_le_bytes, law_integer_gives_back_its_bytes, law_page_is_translated_as_a_whole, le_value, lemma_translate_next, phys_u64, translate, virt_byte,
};

verus! {

/// A run of guest physical memory with its bytes.
pub struct MappedRegion<'a> {
    /// Physical address of the first byte
    pub paddr: usize,
    /// The memory that represents this region
    pub bytes: &'a [u8],
}

impl<'a> MappedRegion<'a> {
    /// Whether the guest physical address `addr` lies in the region.
    pub open spec fn contains(self, addr: int) -> bool {
        self.paddr <= addr < self.paddr + self.bytes@.len()
    }

    /// The byte at the guest physical address `addr`.
    pub open spec fn byte(self, addr: int) -> u8 {
        self.bytes@[addr - self.paddr]
    }
}

/// The byte at the guest physical address `addr`: that of the first region, in
/// the order of the list, that holds the address; `None` if none does.
pub open spec fn phys_byte(regions: Seq<MappedRegion>, addr: int) -> Option<u8>
    decreases regions.len(),
{
    if regions.len() == 0 {
        None
    } else if regions[0].contains(addr) {
        Some(regions[0].byte(addr))
    } else {
        phys_byte(regions.drop_first(), addr)
    }
}

/// The bytes from the guest physical address `addr` to the end of the first
/// region, in the order of the list, that holds the address; none if none does.
pub open spec fn run_at(regions: Seq<MappedRegion>, addr: int) -> Seq<u8>
    decreases regions.len(),
{
    if regions.len() == 0 {
        Seq::empty()
    } else if regions[0].contains(addr) {
        regions[0].bytes@.skip(addr - regions[0].paddr)
    } else {
        run_at(regions.drop_first(), addr)
    }
}

/// The bytes that a read of `len` bytes at the guest physical address `addr`
/// finds: run by run, until there are `len` of them or no region holds the next
/// address.
pub open spec fn phys_bytes(regions: Seq<MappedRegion>, addr: int, len: nat) -> Seq<u8>
    decreases len,
{
    let run = run_at(regions, addr);
    if run.len() == 0 {
        Seq::empty()
    } else if run.len() >= len {
        run.take(len as int)
    } else {
        run + phys_bytes(regions, addr + run.len(), (len - run.len()) as nat)
    }
}

/// Whether no address lies in two of the regions.
pub open spec fn disjoint(regions: Seq<MappedRegion>) -> bool {
    forall|i: int, j: int, addr: int|
        0 <= i < regions.len() && 0 <= j < regions.len() && #[trigger] regions[i].contains(addr)
            && #[trigger] regions[j].contains(addr) ==> i == j
}

/// Of regions that do not overlap, it is the one that holds an address that
/// gives its byte, wherever in the list it stands.
pub proof fn law_order_of_regions_is_irrelevant(regions: Seq<MappedRegion>, i: int, addr: int)
    requires
        disjoint(regions),
        0 <= i < regions.len(),
        regions[i].contains(addr),
    ensures
        phys_byte(regions, addr) == Some(regions[i].byte(addr)),
{
    assert forall|j: int| 0 <= j < i implies !(#[trigger] regions[j]).contains(addr) by {
        assert(regions[i].contains(addr));
    }
    lemma_phys_byte_is_first(regions, addr, i);
}

/// Of the regions that hold an address, the first in the list gives the bytes,
/// up to its end.
pub proof fn law_first_listed_region_wins(regions: Seq<MappedRegion>, i: int, addr: int)
    requires
        0 <= i < regions.len(),
        regions[i].contains(addr),
        forall|j: int| 0 <= j < i ==> !(#[trigger] regions[j]).contains(addr),
    ensures
        run_at(regions, addr) == regions[i].bytes@.skip(addr - regions[i].paddr),
        phys_byte(regions, addr) == Some(regions[i].byte(addr)),
{
    lemma_phys_byte_is_first(regions, addr, i);
}

/// Of regions that do not overlap, a read finds the byte of each address, up to
/// the first one that is not mapped.
pub proof fn law_disjoint_regions_are_read_byte_by_byte(
    regions: Seq<MappedRegion>,
    paddr: int,
    before: Seq<u8>,
)
    requires
        disjoint(regions),
    ensures
        phys_bytes(regions, paddr, before.len()).len() <= before.len(),
        ({
            let bytes = phys_bytes(regions, paddr, before.len());
            reads_phys(
                regions,
                paddr,
                before,
                bytes + before.skip(bytes.len() as int),
                bytes.len() as int,
            )
        }),
    decreases before.len(),
{
    let run = run_at(regions, paddr);
    let bytes = phys_bytes(regions, paddr, before.len());
    let after = bytes + before.skip(bytes.len() as int);
    lemma_run_bytes(regions, paddr);
    if 0 < run.len() < before.len() {
        let rest = before.skip(run.len() as int);
        law_disjoint_regions_are_read_byte_by_byte(regions, paddr + run.len(), rest);
        let rest_bytes = phys_bytes(regions, paddr + run.len(), rest.len());
        let rest_after = rest_bytes + rest.skip(rest_bytes.len() as int);
        assert forall|i: int| 0 <= i < bytes.len() implies phys_byte(regions, paddr + i) == Some(
            #[trigger] after[i],
        ) by {
            if i >= run.len() {
                let k = i - run.len();
                assert(rest_after[k] == after[i]);
                assert(phys_byte(regions, (paddr + run.len()) + k) == Some(rest_after[k]));
                assert((paddr + run.len()) + k == paddr + i);
            }
        }
        assert(paddr + bytes.len() == (paddr + run.len()) + rest_bytes.len());
    }
}

/// A run starts with the byte of its address. In regions that do not overlap,
/// the others are the bytes of the addresses that follow.
proof fn lemma_run_bytes(regions: Seq<MappedRegion>, addr: int)
    ensures
        run_at(regions, addr).len() == 0 <==> phys_byte(regions, addr) is None,
        run_at(regions, addr).len() > 0 ==> phys_byte(regions, addr) == Some(
            run_at(regions, addr)[0],
        ),
        disjoint(regions) ==> forall|i: int|
            0 <= i < run_at(regions, addr).len() ==> phys_byte(regions, addr + i) == Some(
                #[trigger] run_at(regions, addr)[i],
            ),
{
    let k = lemma_first_holding(regions, addr);
    lemma_phys_byte_is_first(regions, addr, k);
    if k < regions.len() && disjoint(regions) {
        assert forall|i: int| 0 <= i < run_at(regions, addr).len() implies phys_byte(
            regions,
            addr + i,
        ) == Some(#[trigger] run_at(regions, addr)[i]) by {
            assert(regions[k].contains(addr + i));
            law_order_of_regions_is_irrelevant(regions, k, addr + i);
        }
    }
}

/// The first region that holds an address, or the number of regions if none
/// does.
proof fn lemma_first_holding(regions: Seq<MappedRegion>, addr: int) -> (k: int)
    ensures
        0 <= k <= regions.len(),
        forall|j: int| 0 <= j < k ==> !(#[trigger] regions[j]).contains(addr),
        k < regions.len() ==> regions[k].contains(addr),
    decreases regions.len(),
{
    if regions.len() == 0 {
        0
    } else if regions[0].contains(addr) {
        0
    } else {
        let rest = regions.drop_first();
        let k = lemma_first_holding(rest, addr);
        assert forall|j: int| 0 <= j < k + 1 implies !(#[trigger] regions[j]).contains(addr) by {
            if j > 0 {
                assert(rest[j - 1] == regions[j]);
            }
        }
        k + 1
    }
}

/// A read byte by byte leaves nothing open: what is in memory decides how many
/// bytes are read and what the buffer holds.
pub proof fn law_physical_read_is_determined(
    regions: Seq<MappedRegion>,
    paddr: int,
    before: Seq<u8>,
    after: Seq<u8>,
    count: int,
    other_after: Seq<u8>,
    other_count: int,
)
    requires
        reads_phys(regions, paddr, before, after, count),
        reads_phys(regions, paddr, before, other_after, other_count),
    ensures
        count == other_count,
        after == other_after,
{
    if count < other_count {
        assert(phys_byte(regions, paddr + count) == Some(other_after[count]));
    } else if other_count < count {
        assert(phys_byte(regions, paddr + other_count) == Some(after[other_count]));
    }
    assert forall|i: int| 0 <= i < before.len() implies after[i] == other_after[i] by {
        if i < count {
            assert(phys_byte(regions, paddr + i) == Some(after[i]));
            assert(phys_byte(regions, paddr + i) == Some(other_after[i]));
        }
    }
    assert(after =~= other_after);
}

/// A read byte by byte can be split: where a first read fills its buffer, it and a second
/// one that goes on where it ended do what one read of both buffers does.
pub proof fn law_physical_reads_compose(
    regions: Seq<MappedRegion>,
    paddr: int,
    before1: Seq<u8>,
    after1: Seq<u8>,
    before2: Seq<u8>,
    after2: Seq<u8>,
    count2: int,
)
    requires
        reads_phys(regions, paddr, before1, after1, before1.len() as int),
        reads_phys(regions, paddr + before1.len(), before2, after2, count2),
    ensures
        reads_phys(
            regions,
            paddr,
            before1 + before2,
            after1 + after2,
            before1.len() + count2,
        ),
{
    let n = before1.len() as int;
    let after = after1 + after2;
    assert forall|i: int| 0 <= i < n + count2 implies phys_byte(regions, paddr + i) == Some(
        #[trigger] after[i],
    ) by {
        if i >= n {
            assert(phys_byte(regions, (paddr + n) + (i - n)) == Some(after2[i - n]));
        } else {
            assert(phys_byte(regions, paddr + i) == Some(after1[i]));
        }
    }
    assert(paddr + (n + count2) == (paddr + n) + count2);
}

/// The same of reads of virtual memory: they can be split.
pub proof fn law_virtual_reads_compose(
    regions: Seq<MappedRegion>,
    cr3: int,
    vaddr: int,
    before1: Seq<u8>,
    after1: Seq<u8>,
    before2: Seq<u8>,
    after2: Seq<u8>,
    count2: int,
)
    requires
        reads_virt(regions, cr3, vaddr, before1, after1, before1.len() as int),
        reads_virt(regions, cr3, vaddr + before1.len(), before2, after2, count2),
    ensures
        reads_virt(
            regions,
            cr3,
            vaddr,
            before1 + before2,
            after1 + after2,
            before1.len() + count2,
        ),
{
    let n = before1.len() as int;
    let after = after1 + after2;
    assert forall|i: int| 0 <= i < n + count2 implies virt_byte(regions, cr3, vaddr + i) == Some(
        #[trigger] after[i],
    ) by {
        if i >= n {
            assert(virt_byte(regions, cr3, (vaddr + n) + (i - n)) == Some(after2[i - n]));
        } else {
            assert(virt_byte(regions, cr3, vaddr + i) == Some(after1[i]));
        }
    }
    assert(vaddr + (n + count2) == (vaddr + n) + count2);
}

/// The same of reads of virtual memory: they leave nothing open.
pub proof fn law_virtual_read_is_determined(
    regions: Seq<MappedRegion>,
    cr3: int,
    vaddr: int,
    before: Seq<u8>,
    after: Seq<u8>,
    count: int,
    other_after: Seq<u8>,
    other_count: int,
)
    requires
        reads_virt(regions, cr3, vaddr, before, after, count),
        reads_virt(regions, cr3, vaddr, before, other_after, other_count),
    ensures
        count == other_count,
        after == other_after,
{
    if count < other_count {
        assert(virt_byte(regions, cr3, vaddr + count) == Some(other_after[count]));
    } else if other_count < count {
        assert(virt_byte(regions, cr3, vaddr + other_count) == Some(after[other_count]));
    }
    assert forall|i: int| 0 <= i < before.len() implies after[i] == other_after[i] by {
        if i < count {
            assert(virt_byte(regions, cr3, vaddr + i) == Some(after[i]));
            assert(virt_byte(regions, cr3, vaddr + i) == Some(other_after[i]));
        }
    }
    assert(after =~= other_after);
}

/// Within one page, a read of virtual memory is the read of physical memory
/// at the address that the page is mapped to.
pub proof fn law_virtual_read_of_a_page_is_physical(
    regions: Seq<MappedRegion>,
    cr3: int,
    vaddr: int,
    paddr: int,
    before: Seq<u8>,
    after: Seq<u8>,
    count: int,
)
    requires
        translate(regions, cr3, vaddr) == Some(paddr),
        vaddr % 0x1000 + before.len() <= 0x1000,
    ensures
        reads_virt(regions, cr3, vaddr, before, after, count) <==> reads_phys(
            regions,
            paddr,
            before,
            after,
            count,
        ),
{
    assert forall|i: int| 0 <= i < before.len() implies #[trigger] virt_byte(
        regions,
        cr3,
        vaddr + i,
    ) == phys_byte(regions, paddr + i) by {
        law_page_is_translated_as_a_whole(regions, cr3, vaddr, vaddr + i);
    }
    if reads_virt(regions, cr3, vaddr, before, after, count) {
        assert forall|i: int| 0 <= i < count implies phys_byte(regions, paddr + i) == Some(
            #[trigger] after[i],
        ) by {
            assert(virt_byte(regions, cr3, vaddr + i) == Some(after[i]));
        }
        if count < before.len() {
            assert(virt_byte(regions, cr3, vaddr + count) is None);
        }
    }
    if reads_phys(regions, paddr, before, after, count) {
        assert forall|i: int| 0 <= i < count implies virt_byte(regions, cr3, vaddr + i) == Some(
            #[trigger] after[i],
        ) by {
            assert(virt_byte(regions, cr3, vaddr + i) == phys_byte(regions, paddr + i));
        }
        if count < before.len() {
            assert(virt_byte(regions, cr3, vaddr + count) == phys_byte(regions, paddr + count));
        }
    }
}

/// Whether `mapped` gives the bytes of `regions`, one for one.
pub open spec fn gives_bytes_of(mapped: Seq<MappedRegion>, regions: Seq<MemoryRegion>) -> bool {
    &&& mapped.len() == regions.len()
    &&& forall|i: int|
        0 <= i < regions.len() ==> (#[trigger] mapped[i]).paddr == regions[i].paddr
            && mapped[i].bytes@.len() == regions[i].size
}

/// A reader of the regions that the pages of a guest were merged into reads
/// exactly the mapped pages.
pub proof fn law_reader_reads_the_mapped_pages(
    pages: Seq<PageBacking>,
    mapped: Seq<MappedRegion>,
    addr: int,
)
    requires
        pages.len() * PAGE_SIZE <= usize::MAX,
        gives_bytes_of(mapped, regions_of(pages)),
    ensures
        disjoint(mapped),
        phys_byte(mapped, addr) is Some <==> 0 <= addr < pages.len() * PAGE_SIZE && mapping(
            pages[addr / PAGE_SIZE as int],
            addr - addr % PAGE_SIZE as int,
        ) is Some,
{
    let regions = regions_of(pages);
    law_regions_are_disjoint(pages);
    assert forall|i: int, j: int, a: int|
        0 <= i < mapped.len() && 0 <= j < mapped.len() && #[trigger] mapped[i].contains(a)
            && #[trigger] mapped[j].contains(a) implies i == j by {
        assert(regions[i].contains(a) && regions[j].contains(a));
    }
    if 0 <= addr < pages.len() * PAGE_SIZE {
        law_regions_map_exactly_the_pages(pages, addr);
    }
    if covered(regions, addr) {
        let i = choose|i: int| 0 <= i < regions.len() && #[trigger] regions[i].contains(addr);
        assert(mapped[i].contains(addr));
        law_order_of_regions_is_irrelevant(mapped, i, addr);
    } else {
        assert forall|i: int| 0 <= i < mapped.len() implies !(#[trigger] mapped[i]).contains(
            addr,
        ) by {
            assert(!regions[i].contains(addr));
        }
        lemma_phys_byte_is_first(mapped, addr, mapped.len() as int);
    }
}

/// `phys_byte` and `run_at` are decided by the first region that holds the
/// address.
proof fn lemma_phys_byte_is_first(regions: Seq<MappedRegion>, addr: int, i: int)
    requires
        0 <= i <= regions.len(),
        forall|j: int| 0 <= j < i ==> !(#[trigger] regions[j]).contains(addr),
    ensures
        i == regions.len() ==> phys_byte(regions, addr) is None && run_at(regions, addr).len() == 0,
        i < regions.len() && regions[i].contains(addr) ==> phys_byte(regions, addr) == Some(
            regions[i].byte(addr),
        ) && run_at(regions, addr) == regions[i].bytes@.skip(addr - regions[i].paddr),
    decreases regions.len(),
{
    if i > 0 {
        let rest = regions.drop_first();
        assert forall|j: int| 0 <= j < i - 1 implies !(#[trigger] rest[j]).contains(addr) by {
            assert(rest[j] == regions[j + 1]);
        }
        assert(!regions[0].contains(addr));
        lemma_phys_byte_is_first(rest, addr, i - 1);
    }
}

/// What a read of physical memory at `paddr`, byte by byte, does to a buffer:
/// the first `count` bytes are those from `paddr` on, the others are left alone, and
/// `count` falls short of the buffer only where an address is not mapped.
pub open spec fn reads_phys(
    regions: Seq<MappedRegion>,
    paddr: int,
    before: Seq<u8>,
    after: Seq<u8>,
    count: int,
) -> bool {
    &&& 0 <= count <= before.len()
    &&& after.len() == before.len()
    &&& forall|i: int|
        0 <= i < count ==> phys_byte(regions, paddr + i) == Some(#[trigger] after[i])
    &&& forall|i: int| count <= i < before.len() ==> #[trigger] after[i] == before[i]
    &&& count < before.len() ==> phys_byte(regions, paddr + count) is None
}

/// What a read of virtual memory at `vaddr` does to a buffer: the first
/// `count` bytes are those from `vaddr` on, the others are left alone, and
/// `count` falls short of the buffer only where an address cannot be read.
pub open spec fn reads_virt(
    regions: Seq<MappedRegion>,
    cr3: int,
    vaddr: int,
    before: Seq<u8>,
    after: Seq<u8>,
    count: int,
) -> bool {
    &&& 0 <= count <= before.len()
    &&& after.len() == before.len()
    &&& forall|i: int|
        0 <= i < count ==> virt_byte(regions, cr3, vaddr + i) == Some(#[trigger] after[i])
    &&& forall|i: int| count <= i < before.len() ==> #[trigger] after[i] == before[i]
    &&& count < before.len() ==> virt_byte(regions, cr3, vaddr + count) is None
}

/// Reader of the memory regions mapped into the guest physical space.
pub struct MemReader<'a> {
    /// List of all of the memory regions mapped into the guest physical space
    regions: Vec<MappedRegion<'a>>,
}

impl<'a> View for MemReader<'a> {
    type V = Seq<MappedRegion<'a>>;

    closed spec fn view(&self) -> Seq<MappedRegion<'a>> {
        self.regions@
    }
}

impl<'a> Default for MemReader<'a> {
    /// A reader without any memory.
    fn default() -> (res: Self)
        ensures
            res@ == Seq::<MappedRegion<'a>>::empty(),
    {
        MemReader { regions: Vec::new() }
    }
}

impl<'a> MemReader<'a> {
    /// Create a new memory reader based on a list of memory regions.
    pub fn new(memory_regions: Vec<MappedRegion<'a>>) -> (res: Self)
        ensures
            res@ == memory_regions@,
    {
        MemReader { regions: memory_regions }
    }

    /// Read physical memory at `paddr` into an output buffer. Returns number
    /// of bytes read, this may be smaller than `output.len()` on partial reads.
    pub fn read_phys(&self, paddr: usize, output: &mut [u8]) -> (res: usize)
        requires
            old(output)@.len() > 0,
        ensures
            res == phys_bytes(self@, paddr as int, old(output)@.len()).len(),
            final(output)@ == phys_bytes(self@, paddr as int, old(output)@.len()) + old(
                output,
            )@.skip(res as int),
            disjoint(self@) ==> reads_phys(
                self@,
                paddr as int,
                old(output)@,
                final(output)@,
                res as int,
            ),
    {
        let res: usize = self.read_from(paddr as u64, output);
        proof {
            if disjoint(self@) {
                law_disjoint_regions_are_read_byte_by_byte(
                    self@,
                    paddr as int,
                    old(output)@,
                );
            }
        }
        res
    }

    /// Reads the memory at `paddr` until `output` is full or an address is not
    /// mapped, and returns the number of bytes read.
    fn read_from(&self, paddr: u64, output: &mut [u8]) -> (res: usize)
        ensures
            res == phys_bytes(self@, paddr as int, old(output)@.len()).len(),
            final(output)@ == phys_bytes(self@, paddr as int, old(output)@.len()) + old(
                output,
            )@.skip(res as int),
    {
        let len: usize = output.len();
        let mut bread: usize = 0;
        let ghost all = phys_bytes(self@, paddr as int, len as nat);
        while bread < len
            invariant
                bread <= len,
                len == output@.len() == old(output)@.len(),
                all == output@.take(bread as int) + phys_bytes(
                    self@,
                    paddr + bread,
                    (len - bread) as nat,
                ),
                all == phys_bytes(self@, paddr as int, len as nat),
                output@.skip(bread as int) == old(output)@.skip(bread as int),
            decreases len - bread,
        {
            let ghost before = output@;
            let copied: usize = self.copy_run(paddr as u128 + bread as u128, output, bread);
            proof {
                let run = run_at(self@, paddr + bread);
                assert(output@.take(bread + copied) =~= before.take(bread as int) + run.take(
                    copied as int,
                ));
                assert forall|i: int| bread + copied <= i < len implies output@[i] == old(
                    output,
                )@[i] by {
                    assert(before[i] == before.skip(bread as int)[i - bread]);
                    assert(old(output)@[i] == old(output)@.skip(bread as int)[i - bread]);
                }
                assert(output@.skip(bread + copied) =~= old(output)@.skip(bread + copied));
            }
            if copied == 0 {
                assert(output@ =~= output@.take(bread as int) + output@.skip(bread as int));
                assert(all =~= output@.take(bread as int));
                return bread;
            }
            proof {
                let run = run_at(self@, paddr + bread);
                if copied == len - bread {
                    assert(phys_bytes(self@, paddr + bread + copied, 0) =~= Seq::<u8>::empty());
                } else {
                    assert(run.take(copied as int) =~= run);
                }
                assert(all =~= output@.take(bread + copied) + phys_bytes(
                    self@,
                    paddr + (bread + copied),
                    (len - (bread + copied)) as nat,
                ));
            }
            bread = bread + copied;
        }
        proof {
            assert(phys_bytes(self@, paddr + bread, 0) =~= Seq::<u8>::empty());
            assert(all =~= output@);
        }
        bread
    }

    /// Copies bytes from `addr` on to `output`, from index `at` on: as many
    /// as the first region that holds `addr` still has, or as `output` still
    /// takes. Returns how many those are, 0 if no region holds `addr`.
    fn copy_run(&self, addr: u128, output: &mut [u8], at: usize) -> (res: usize)
        requires
            at < old(output)@.len(),
        ensures
            ({
                let run = run_at(self@, addr as int);
                let room = old(output)@.len() - at;
                &&& res == if run.len() < room {
                    run.len() as int
                } else {
                    room
                }
                &&& final(output)@ == old(output)@.take(at as int) + run.take(res as int) + old(
                    output,
                )@.skip(at + res)
            }),
    {
        let mut r: usize = 0;
        while r < self.regions.len()
            invariant
                r <= self.regions@.len(),
                output@ == old(output)@,
                at < output@.len(),
                forall|j: int| 0 <= j < r ==> !(#[trigger] self.regions@[j]).contains(addr as int),
            decreases self.regions@.len() - r,
        {
            let base: u128 = self.regions[r].paddr as u128;
            let bytes: &[u8] = self.regions[r].bytes;
            if addr >= base && addr - base < bytes.len() as u128 {
                let offset: usize = (addr - base) as usize;
                let remain: usize = bytes.len() - offset;
                let room: usize = output.len() - at;
                let count: usize = if room < remain {
                    room
                } else {
                    remain
                };
                let mut n: usize = 0;
                while n < count
                    invariant
                        n <= count,
                        count <= bytes@.len() - offset,
                        count <= output@.len() - at,
                        at + count <= usize::MAX,
                        offset + count <= usize::MAX,
                        output@.len() == old(output)@.len(),
                        forall|i: int|
                            at <= i < at + n ==> #[trigger] output@[i] == bytes@[offset + (i - at)],
                        forall|i: int|
                            0 <= i < output@.len() && !(at <= i < at + n)
                                ==> #[trigger] output@[i] == old(output)@[i],
                    decreases count - n,
                {
                    output[at + n] = bytes[offset + n];
                    n = n + 1;
                }
                proof {
                    assert(self.regions@[r as int].contains(addr as int));
                    lemma_phys_byte_is_first(self@, addr as int, r as int);
                    let run = run_at(self@, addr as int);
                    assert(output@ =~= old(output)@.take(at as int) + run.take(count as int) + old(
                        output,
                    )@.skip(at + count));
                }
                return count;
            }
            r = r + 1;
        }
        proof {
            lemma_phys_byte_is_first(self@, addr as int, r as int);
            assert(output@ =~= old(output)@.take(at as int) + run_at(self@, addr as int).take(0)
                + old(output)@.skip(at as int));
        }
        0
    }

    /// Read the integer at physical address `addr`, all of whose bytes have to
    /// be mapped.
    pub fn read_phys_int(&self, addr: u64) -> (res: Result<u64, &'static str>)
        requires
            phys_u64(self@, addr as int) is Some,
        ensures
            res matches Ok(value) && phys_u64(self@, addr as int) == Some(value as int),
    {
        Ok(self.find_phys_int(addr).unwrap())
    }

    /// Read the integer at physical address `addr`; `None` if one of its bytes
    /// is not mapped.
    pub(crate) fn find_phys_int(&self, addr: u64) -> (res: Option<u64>)
        ensures
            res is Some <==> phys_u64(self@, addr as int) is Some,
            res matches Some(value) ==> phys_u64(self@, addr as int) == Some(value as int),
    {
        reveal(phys_u64);
        let mut buf: [u8; 8] = [0u8; 8];
        if self.read_from(addr, &mut buf) != 8 {
            return None;
        }
        assert(buf@ =~= phys_bytes(self@, addr as int, 8));
        Some(from_le_bytes(&buf))
    }

    /// Read virtual memory at `vaddr` using page table `cr3` into `buf`.
    /// Returns number of bytes read (can be less than `buf.len()` on error).
    pub fn read_virt(&self, cr3: usize, vaddr: usize, buf: &mut [u8]) -> (res: usize)
        ensures
            reads_virt(self@, cr3 as int, vaddr as int, old(buf)@, final(buf)@, res as int),
            res <= final(buf)@.len() == old(buf)@.len(),
            forall|i: int|
                0 <= i < res ==> virt_byte(self@, cr3 as int, vaddr + i) == Some(
                    #[trigger] final(buf)@[i],
                ),
            forall|i: int| res <= i < old(buf)@.len() ==> #[trigger] final(buf)@[i] == old(buf)@[i],
            res < old(buf)@.len() ==> virt_byte(self@, cr3 as int, vaddr + res) is None,
    {
        let len: usize = buf.len();
        // Cached physical translation
        let mut guest_phys: u64 = 0;
        let mut offset: usize = 0;
        while offset < len
            invariant
                offset <= len,
                len == buf@.len() == old(buf)@.len(),
                guest_phys <= 0x10_0000_0000_0000,
                guest_phys % 0x1000 != 0 ==> translate(self@, cr3 as int, vaddr + offset) == Some(
                    guest_phys as int,
                ),
                forall|i: int|
                    0 <= i < offset ==> virt_byte(self@, cr3 as int, vaddr + i) == Some(
                        #[trigger] buf@[i],
                    ),
                forall|i: int| offset <= i < len ==> #[trigger] buf@[i] == old(buf)@[i],
            decreases len - offset,
        {
            // Update translation on new pages
            if guest_phys % 0x1000 == 0 {
                let addr: u64 = match (vaddr as u64).checked_add(offset as u64) {
                    Some(addr) => addr,
                    None => return offset,
                };
                match PageTable::from_existing(cr3 as u64, self).virt_to_phys(addr) {
                    Some(phys) => {
                        guest_phys = phys;
                    },
                    None => return offset,
                }
            }
            // Read one byte from memory
            let mut byte: [u8; 1] = [0u8; 1];
            proof {
                lemma_run_bytes(self@, guest_phys as int);
            }
            if self.read_from(guest_phys, &mut byte) != 1 {
                // Failed to read, return bytes read to this point
                return offset;
            }
            proof {
                assert(byte@[0] == run_at(self@, guest_phys as int)[0]);
                lemma_translate_next(self@, cr3 as int, vaddr + offset);
            }
            buf[offset] = byte[0];
            guest_phys = guest_phys + 1;
            offset = offset + 1;
        }
        offset
    }

    /// Read a usize from `addr` in page table `cr3`, all of whose eight bytes
    /// have to be readable.
    pub fn read_virt_usize(&self, cr3: usize, addr: usize) -> (res: Result<usize, ()>)
        requires
            forall|i: int|
                0 <= i < 8 ==> #[trigger] virt_byte(self@, cr3 as int, addr + i) is Some,
        ensures
            res == Ok::<usize, ()>(
                le_value(
                    Seq::new(8, |i: int| virt_byte(self@, cr3 as int, addr + i)->0),
                ) as usize,
            ),
    {
        let mut val: [u8; 8] = [0u8; 8];
        let read: usize = self.read_virt(cr3, addr, &mut val);
        proof {
            if read < 8 {
                assert(virt_byte(self@, cr3 as int, addr + read) is Some);
            }
            assert(val@ =~= Seq::new(8, |i: int| virt_byte(self@, cr3 as int, addr + i)->0));
        }
        Ok(from_le_bytes(&val) as usize)
    }
}

/// What a read finds where memory is mapped. The first region in the list that
/// holds the address gives its bytes from there on. If it has enough of them,
/// these are all; if not, the read goes on where the region ends.
pub proof fn law_reads_find_the_bytes_of_the_regions(
    regions: Seq<MappedRegion>,
    i: int,
    addr: int,
    len: nat,
)
    requires
        0 <= i < regions.len(),
        regions[i].paddr <= addr < regions[i].paddr + regions[i].bytes@.len(),
        forall|j: int|
            0 <= j < i ==> !((#[trigger] regions[j]).paddr <= addr < regions[j].paddr
                + regions[j].bytes@.len()),
    ensures
        ({
            let bytes = regions[i].bytes@;
            let from = addr - regions[i].paddr;
            let rest = bytes.len() - from;
            &&& len <= rest ==> phys_bytes(regions, addr, len) == bytes.subrange(from, from + len)
            &&& len > rest ==> phys_bytes(regions, addr, len) == bytes.subrange(
                from,
                bytes.len() as int,
            ) + phys_bytes(regions, addr + rest, (len - rest) as nat)
            &&& phys_byte(regions, addr) == Some(bytes[from])
        }),
{
    assert forall|j: int| 0 <= j < i implies !(#[trigger] regions[j]).contains(addr) by {}
    law_first_listed_region_wins(regions, i, addr);
    let bytes = regions[i].bytes@;
    let from = addr - regions[i].paddr;
    assert(bytes.skip(from) =~= bytes.subrange(from, bytes.len() as int));
    if len <= bytes.len() - from {
        assert(bytes.skip(from).take(len as int) =~= bytes.subrange(from, from + len));
    }
}

/// A read at an address that no region holds finds nothing.
pub proof fn law_reads_find_nothing_where_nothing_is_mapped(
    regions: Seq<MappedRegion>,
    addr: int,
    len: nat,
)
    requires
        forall|j: int|
            0 <= j < regions.len() ==> !((#[trigger] regions[j]).paddr <= addr < regions[j].paddr
                + regions[j].bytes@.len()),
    ensures
        phys_bytes(regions, addr, len) == Seq::<u8>::empty(),
        phys_byte(regions, addr) is None,
{
    assert forall|j: int| 0 <= j < regions.len() implies !(#[trigger] regions[j]).contains(
        addr,
    ) by {}
    lemma_phys_byte_is_first(regions, addr, regions.len() as int);
}

/// A byte of virtual memory is that of the physical address that it is translated
/// to, as a physical read of one byte finds it.
pub proof fn law_virtual_bytes_are_those_of_the_translation(
    regions: Seq<MappedRegion>,
    cr3: int,
    vaddr: int,
)
    ensures
        translate(regions, cr3, vaddr) is None ==> virt_byte(regions, cr3, vaddr) is None,
        translate(regions, cr3, vaddr) matches Some(paddr) ==> {
            &&& virt_byte(regions, cr3, vaddr) is None <==> phys_bytes(regions, paddr, 1).len() == 0
            &&& virt_byte(regions, cr3, vaddr) is Some ==> phys_bytes(regions, paddr, 1).len() == 1
                && virt_byte(regions, cr3, vaddr) == Some(phys_bytes(regions, paddr, 1)[0])
        },
{
    if let Some(paddr) = translate(regions, cr3, vaddr) {
        lemma_run_bytes(regions, paddr);
    }
}

/// An integer is read from the eight bytes at its address, the lowest first, and
/// can be read if and only if all of them can.
pub proof fn law_integers_are_read_from_their_bytes(regions: Seq<MappedRegion>, addr: int)
    ensures
        phys_u64(regions, addr) is Some <==> phys_bytes(regions, addr, 8).len() == 8,
        phys_u64(regions, addr) matches Some(value) ==> {
            let bytes = phys_bytes(regions, addr, 8);
            &&& 0 <= value < 0x1_0000_0000_0000_0000
            &&& value % 0x100 == bytes[0]
            &&& (value / 0x100) % 0x100 == bytes[1]
            &&& (value / 0x1_0000) % 0x100 == bytes[2]
            &&& (value / 0x100_0000) % 0x100 == bytes[3]
            &&& (value / 0x1_0000_0000) % 0x100 == bytes[4]
            &&& (value / 0x100_0000_0000) % 0x100 == bytes[5]
            &&& (value / 0x1_0000_0000_0000) % 0x100 == bytes[6]
            &&& value / 0x100_0000_0000_0000 == bytes[7]
        },
{
    reveal(phys_u64);
    law_integer_gives_back_its_bytes(phys_bytes(regions, addr, 8));
}

} // verus!
