//! Translation of guest virtual addresses through the guest's page tables, in
//! the layout that an x86-64 processor walks: four levels of tables with 512
//! entries each, for pages of 4 KiB, 2 MiB and 1 GiB.

use vstd::prelude::*;

use vstd::arithmetic::div_mod::{lemma_div_denominator, lemma_mod_breakdown};

use crate::mem_reader::{MappedRegion, MemReader, phys_byte, phys_bytes};

verus! {

/// The number that eight bytes hold, the lowest first.
pub open spec fn le_value(bytes: Seq<u8>) -> int {
    bytes[0] + bytes[1] * 0x100 + bytes[2] * 0x1_0000 + bytes[3] * 0x100_0000 + bytes[4]
        * 0x1_0000_0000 + bytes[5] * 0x100_0000_0000 + bytes[6] * 0x1_0000_0000_0000 + bytes[7]
        * 0x100_0000_0000_0000
}

/// The number that `bytes` hold, the lowest first.
pub fn from_le_bytes(bytes: &[u8; 8]) -> (res: u64)
    ensures
        res == le_value(bytes@),
{
    bytes[0] as u64 + bytes[1] as u64 * 0x100 + bytes[2] as u64 * 0x1_0000 + bytes[3] as u64
        * 0x100_0000 + bytes[4] as u64 * 0x1_0000_0000 + bytes[5] as u64 * 0x100_0000_0000
        + bytes[6] as u64 * 0x1_0000_0000_0000 + bytes[7] as u64 * 0x100_0000_0000_0000
}

/// The eight bytes of physical memory at `addr`, as a number; `None` if one of
/// them is not mapped.
#[verifier::opaque]
pub open spec fn phys_u64(regions: Seq<MappedRegion>, addr: int) -> Option<int> {
    let bytes = phys_bytes(regions, addr, 8);
    if bytes.len() == 8 {
        Some(le_value(bytes))
    } else {
        None
    }
}

/// Bytes of virtual memory that one entry of a table covers. Level 4 is that
/// of the table that CR3 points at, level 1 that of the last table.
pub open spec fn span(level: int) -> int {
    if level == 1 {
        0x1000
    } else if level == 2 {
        0x20_0000
    } else if level == 3 {
        0x4000_0000
    } else {
        0x80_0000_0000
    }
}

/// Index of the entry for `vaddr` in a table.
pub open spec fn entry_index(vaddr: int, level: int) -> int {
    (vaddr / span(level)) % 512
}

/// Whether bit 0 is set: the entry is in use.
pub open spec fn is_present(entry: int) -> bool {
    entry % 2 == 1
}

/// Whether bit 7 is set: above the last level, the entry maps a large page.
pub open spec fn is_large(entry: int) -> bool {
    (entry / 0x80) % 2 == 1
}

/// The physical address in an entry, or in CR3, of something as large and as
/// well aligned as `span(level)`: bits 51 and below, those under the alignment
/// left out.
pub open spec fn frame(entry: int, level: int) -> int {
    let addr = entry % 0x10_0000_0000_0000;
    addr - addr % span(level)
}

/// Where `vaddr` lies in physical memory according to the table at `table`;
/// `None` if it is not mapped or an entry cannot be read. Levels 2 and 3 can
/// map a large page, level 4 cannot.
pub open spec fn walk(regions: Seq<MappedRegion>, table: int, level: int, vaddr: int) -> Option<int>
    decreases level,
{
    match phys_u64(regions, table + 8 * entry_index(vaddr, level)) {
        None => None,
        Some(entry) => if !is_present(entry) {
            None
        } else if level <= 1 || (level < 4 && is_large(entry)) {
            Some(frame(entry, level) + vaddr % span(level))
        } else if level == 4 && is_large(entry) {
            None
        } else {
            walk(regions, frame(entry, 1), level - 1, vaddr)
        },
    }
}

/// Whether bits 63 to 47 of `vaddr` are equal, as the processor asks.
pub open spec fn is_canonical(vaddr: int) -> bool {
    0 <= vaddr < 0x8000_0000_0000 || 0xffff_8000_0000_0000 <= vaddr <= u64::MAX
}

/// Where `vaddr` lies in physical memory according to the page table `cr3`.
pub open spec fn translate(regions: Seq<MappedRegion>, cr3: int, vaddr: int) -> Option<int> {
    if is_canonical(vaddr) {
        walk(regions, frame(cr3, 1), 4, vaddr)
    } else {
        None
    }
}

/// The byte at the guest virtual address `vaddr`, if it is mapped and there is
/// memory where it is mapped to.
pub open spec fn virt_byte(regions: Seq<MappedRegion>, cr3: int, vaddr: int) -> Option<u8> {
    match translate(regions, cr3, vaddr) {
        None => None,
        Some(paddr) => phys_byte(regions, paddr),
    }
}

/// Two addresses in one page have the same entry at each level, and lie in the
/// same distance from what the entry covers.
proof fn lemma_span_within_page(level: int, v: int, w: int)
    requires
        1 <= level <= 4,
        0 <= v,
        0 <= w,
        v / 0x1000 == w / 0x1000,
    ensures
        entry_index(v, level) == entry_index(w, level),
        v % span(level) - v == w % span(level) - w,
        (v % span(level)) % 0x1000 == v % 0x1000,
{
    let m: int = if level == 1 {
        1
    } else if level == 2 {
        0x200
    } else if level == 3 {
        0x4_0000
    } else {
        0x800_0000
    };
    assert(span(level) == 0x1000 * m);
    lemma_div_denominator(v, 0x1000, m);
    lemma_div_denominator(w, 0x1000, m);
    lemma_mod_breakdown(v, 0x1000, m);
    lemma_mod_breakdown(w, 0x1000, m);
}

/// What an entry that maps a page gives for an address is a physical address,
/// at the same place in its 4 KiB as the virtual address.
proof fn lemma_leaf(entry: int, level: int, v: int)
    requires
        1 <= level <= 3,
        0 <= entry,
        0 <= v,
    ensures
        0 <= frame(entry, level) + v % span(level) < 0x10_0000_0000_0000,
        (frame(entry, level) + v % span(level)) % 0x1000 == v % 0x1000,
{
    let addr = entry % 0x10_0000_0000_0000;
    if level == 1 {
        assert(addr - addr % 0x1000 == 0x1000 * (addr / 0x1000));
    } else if level == 2 {
        assert(addr - addr % 0x20_0000 == 0x20_0000 * (addr / 0x20_0000));
    } else {
        assert(addr - addr % 0x4000_0000 == 0x4000_0000 * (addr / 0x4000_0000));
    }
    lemma_span_within_page(level, v, v);
}

/// Addresses in one page are translated alike, and keep their place in it.
proof fn lemma_walk_within_page(
    regions: Seq<MappedRegion>,
    table: int,
    level: int,
    v: int,
    w: int,
)
    requires
        1 <= level <= 4,
        0 <= v,
        0 <= w,
        v / 0x1000 == w / 0x1000,
    ensures
        walk(regions, table, level, v) is Some <==> walk(regions, table, level, w) is Some,
        walk(regions, table, level, v) is Some ==> walk(regions, table, level, v)->0 - v == walk(
            regions,
            table,
            level,
            w,
        )->0 - w,
    decreases level,
{
    lemma_span_within_page(level, v, w);
    match phys_u64(regions, table + 8 * entry_index(v, level)) {
        None => {},
        Some(entry) => {
            if level > 1 {
                lemma_walk_within_page(regions, frame(entry, 1), level - 1, v, w);
            }
        },
    }
}

/// What a walk gives is a physical address, at the same place in its page as
/// the virtual address.
proof fn lemma_walk_result(regions: Seq<MappedRegion>, table: int, level: int, v: int)
    requires
        1 <= level <= 4,
        0 <= v,
    ensures
        walk(regions, table, level, v) matches Some(p) ==> 0 <= p < 0x10_0000_0000_0000 && p
            % 0x1000 == v % 0x1000,
    decreases level,
{
    match phys_u64(regions, table + 8 * entry_index(v, level)) {
        None => {},
        Some(entry) => {
            assert(0 <= entry) by {
                reveal(phys_u64);
            }
            if level <= 3 {
                lemma_leaf(entry, level, v);
            }
            if level > 1 {
                lemma_walk_result(regions, frame(entry, 1), level - 1, v);
            }
        },
    }
}

/// A translation is a physical address, at the same place in its page as the
/// virtual address.
pub proof fn law_translation_keeps_the_place_in_the_page(
    regions: Seq<MappedRegion>,
    cr3: int,
    v: int,
)
    requires
        translate(regions, cr3, v) is Some,
    ensures
        translate(regions, cr3, v)->0 % 0x1000 == v % 0x1000,
        0 <= translate(regions, cr3, v)->0 < 0x10_0000_0000_0000,
{
    lemma_walk_result(regions, frame(cr3, 1), 4, v);
}

/// A page is mapped as a whole: if one of its addresses has a translation,
/// all of them have, each in the same distance from its address.
pub proof fn law_page_is_translated_as_a_whole(
    regions: Seq<MappedRegion>,
    cr3: int,
    v: int,
    w: int,
)
    requires
        translate(regions, cr3, v) is Some,
        v / 0x1000 == w / 0x1000,
    ensures
        translate(regions, cr3, w) == Some(translate(regions, cr3, v)->0 + (w - v)),
{
    lemma_walk_within_page(regions, frame(cr3, 1), 4, v, w);
}

/// The address after a translated one is translated to the address after its
/// translation, unless a page ends there.
pub(crate) proof fn lemma_translate_next(regions: Seq<MappedRegion>, cr3: int, v: int)
    requires
        translate(regions, cr3, v) is Some,
    ensures
        0 <= translate(regions, cr3, v)->0 < 0x10_0000_0000_0000,
        (translate(regions, cr3, v)->0 + 1) % 0x1000 != 0 ==> translate(regions, cr3, v + 1)
            == Some(translate(regions, cr3, v)->0 + 1),
{
    let p = translate(regions, cr3, v)->0;
    lemma_walk_result(regions, frame(cr3, 1), 4, v);
    if (p + 1) % 0x1000 != 0 {
        assert(v / 0x1000 == (v + 1) / 0x1000);
        lemma_walk_within_page(regions, frame(cr3, 1), 4, v, v + 1);
    }
}

/// A guest's page tables, read through the guest's physical memory.
pub struct PageTable<'m, 'a> {
    /// The value of CR3: where the table of the top level lies
    pub cr3: u64,
    /// The memory that the tables lie in
    pub mem: &'m MemReader<'a>,
}

impl<'m, 'a> PageTable<'m, 'a> {
    /// The page tables that `cr3` points at in `mem`.
    pub fn from_existing(cr3: u64, mem: &'m MemReader<'a>) -> (res: Self)
        ensures
            res.cr3 == cr3,
            res.mem == mem,
    {
        PageTable { cr3, mem }
    }

    /// Translates a virtual address; `None` if it is not mapped, or if an
    /// entry on the way to it lies in memory that cannot be read. The tables
    /// are not changed: no accessed or dirty bit is set.
    pub fn virt_to_phys(&self, vaddr: u64) -> (res: Option<u64>)
        ensures
            res is Some <==> translate(self.mem@, self.cr3 as int, vaddr as int) is Some,
            res matches Some(paddr) ==> translate(self.mem@, self.cr3 as int, vaddr as int)
                == Some(paddr as int),
    {
        if vaddr >= 0x8000_0000_0000 && vaddr < 0xffff_8000_0000_0000 {
            return None;
        }
        let addr: u64 = self.cr3 % 0x10_0000_0000_0000;
        self.walk_from(addr - addr % 0x1000, 4, vaddr)
    }

    /// Walks the tables from the one at `table` down.
    fn walk_from(&self, table: u64, level: u8, vaddr: u64) -> (res: Option<u64>)
        requires
            1 <= level <= 4,
            table < 0x10_0000_0000_0000,
        ensures
            res is Some <==> walk(self.mem@, table as int, level as int, vaddr as int) is Some,
            res matches Some(paddr) ==> walk(self.mem@, table as int, level as int, vaddr as int)
                == Some(paddr as int),
        decreases level,
    {
        let index: u64 = if level == 1 {
            (vaddr / 0x1000) % 512
        } else if level == 2 {
            (vaddr / 0x20_0000) % 512
        } else if level == 3 {
            (vaddr / 0x4000_0000) % 512
        } else {
            (vaddr / 0x80_0000_0000) % 512
        };
        assert(index == entry_index(vaddr as int, level as int));
        let entry: u64 = match self.mem.find_phys_int(table + 8 * index) {
            Some(entry) => entry,
            None => return None,
        };
        if entry % 2 == 0 {
            return None;
        }
        let large: bool = (entry / 0x80) % 2 == 1;
        let addr: u64 = entry % 0x10_0000_0000_0000;
        if level == 4 {
            if large {
                return None;
            }
        } else {
            proof {
                lemma_leaf(entry as int, level as int, vaddr as int);
            }
            if level == 1 {
                return Some((addr - addr % 0x1000) + vaddr % 0x1000);
            } else if large && level == 2 {
                return Some((addr - addr % 0x20_0000) + vaddr % 0x20_0000);
            } else if large {
                return Some((addr - addr % 0x4000_0000) + vaddr % 0x4000_0000);
            }
        }
        self.walk_from(addr - addr % 0x1000, level - 1, vaddr)
    }
}

/// An integer gives back the bytes that it was made of, the lowest first.
pub proof fn law_integer_gives_back_its_bytes(bytes: Seq<u8>)
    ensures
        ({
            let value = le_value(bytes);
            &&& 0 <= value < 0x1_0000_0000_0000_0000
            &&& value % 0x100 == bytes[0]
            &&& (value / 0x100) % 0x100 == bytes[1]
            &&& (value / 0x1_0000) % 0x100 == bytes[2]
            &&& (value / 0x100_0000) % 0x100 == bytes[3]
            &&& (value / 0x1_0000_0000) % 0x100 == bytes[4]
            &&& (value / 0x100_0000_0000) % 0x100 == bytes[5]
            &&& (value / 0x1_0000_0000_0000) % 0x100 == bytes[6]
            &&& value / 0x100_0000_0000_0000 == bytes[7]
        }),
{
    let y7: int = bytes[7] as int;
    let y6 = bytes[6] + 0x100 * y7;
    let y5 = bytes[5] + 0x100 * y6;
    let y4 = bytes[4] + 0x100 * y5;
    let y3 = bytes[3] + 0x100 * y4;
    let y2 = bytes[2] + 0x100 * y3;
    let y1 = bytes[1] + 0x100 * y2;
    let value = bytes[0] + 0x100 * y1;
    assert(value == le_value(bytes));
    lemma_div_denominator(value, 0x100, 0x100);
    lemma_div_denominator(value, 0x1_0000, 0x100);
    lemma_div_denominator(value, 0x100_0000, 0x100);
    lemma_div_denominator(value, 0x1_0000_0000, 0x100);
    lemma_div_denominator(value, 0x100_0000_0000, 0x100);
    lemma_div_denominator(value, 0x1_0000_0000_0000, 0x100);
    assert(value / 0x100 == y1);
    assert(y1 / 0x100 == y2);
    assert(y2 / 0x100 == y3);
    assert(y3 / 0x100 == y4);
    assert(y4 / 0x100 == y5);
    assert(y5 / 0x100 == y6);
    assert(y6 / 0x100 == y7);
}

/// The fields of entries and addresses, taken by masks and shifts.
proof fn lemma_fields(entry: u64, v: u64)
    ensures
        (entry & 0x000f_ffff_ffff_f000) as int == frame(entry as int, 1),
        (entry & 1 == 1) <==> is_present(entry as int),
        (entry & 0x80 == 0x80) <==> is_large(entry as int),
        (entry & 0x80 == 0) <==> !is_large(entry as int),
        ((v >> 39u64) & 0x1ff) as int == entry_index(v as int, 4),
        ((v >> 30u64) & 0x1ff) as int == entry_index(v as int, 3),
        ((v >> 21u64) & 0x1ff) as int == entry_index(v as int, 2),
        ((v >> 12u64) & 0x1ff) as int == entry_index(v as int, 1),
        ((entry & 0x000f_ffff_ffff_f000) | (v & 0xfff)) as int == frame(entry as int, 1) + v as int
            % 0x1000,
        ((entry & 0x000f_ffff_ffe0_0000) | (v & 0x1f_ffff)) as int == frame(entry as int, 2)
            + v as int % 0x20_0000,
        ((entry & 0x000f_ffff_c000_0000) | (v & 0x3fff_ffff)) as int == frame(entry as int, 3)
            + v as int % 0x4000_0000,
{
    assert(entry & 0x000f_ffff_ffff_f000 == (entry % 0x10_0000_0000_0000) - (entry
        % 0x10_0000_0000_0000) % 0x1000) by (bit_vector);
    assert(entry & 1 == entry % 2) by (bit_vector);
    assert((entry & 0x80 == 0x80) == ((entry / 0x80) % 2 == 1)) by (bit_vector);
    assert((entry & 0x80 == 0) == ((entry / 0x80) % 2 == 0)) by (bit_vector);
    assert((v >> 39u64) & 0x1ff == (v / 0x80_0000_0000) % 512) by (bit_vector);
    assert((v >> 30u64) & 0x1ff == (v / 0x4000_0000) % 512) by (bit_vector);
    assert((v >> 21u64) & 0x1ff == (v / 0x20_0000) % 512) by (bit_vector);
    assert((v >> 12u64) & 0x1ff == (v / 0x1000) % 512) by (bit_vector);
    assert((entry & 0x000f_ffff_ffff_f000) | (v & 0xfff) == ((entry % 0x10_0000_0000_0000) - (entry
        % 0x10_0000_0000_0000) % 0x1000) + v % 0x1000) by (bit_vector);
    assert((entry & 0x000f_ffff_ffe0_0000) | (v & 0x1f_ffff) == ((entry % 0x10_0000_0000_0000) - (
    entry % 0x10_0000_0000_0000) % 0x20_0000) + v % 0x20_0000) by (bit_vector);
    assert((entry & 0x000f_ffff_c000_0000) | (v & 0x3fff_ffff) == ((entry % 0x10_0000_0000_0000) - (
    entry % 0x10_0000_0000_0000) % 0x4000_0000) + v % 0x4000_0000) by (bit_vector);
}

/// Whether `entry` is what the table at `table`, the low bits of which do not
/// count, holds for an address with these nine bits as index.
pub open spec fn holds_entry(
    regions: Seq<MappedRegion>,
    table: u64,
    index: u64,
    entry: u64,
) -> bool {
    phys_u64(regions, (table & 0x000f_ffff_ffff_f000) + 8 * (index & 0x1ff)) == Some(entry as int)
}

/// A 4 KiB page: through three entries that are present and map no large page, to
/// a present one. The entry gives bits 51 to 12 of the physical address, the
/// virtual address the others.
pub proof fn law_small_pages(
    regions: Seq<MappedRegion>,
    cr3: u64,
    v: u64,
    e4: u64,
    e3: u64,
    e2: u64,
    e1: u64,
)
    requires
        v < 0x8000_0000_0000 || v >= 0xffff_8000_0000_0000,
        holds_entry(regions, cr3, v >> 39u64, e4),
        e4 & 1 == 1 && e4 & 0x80 == 0,
        holds_entry(regions, e4, v >> 30u64, e3),
        e3 & 1 == 1 && e3 & 0x80 == 0,
        holds_entry(regions, e3, v >> 21u64, e2),
        e2 & 1 == 1 && e2 & 0x80 == 0,
        holds_entry(regions, e2, v >> 12u64, e1),
        e1 & 1 == 1,
    ensures
        translate(regions, cr3 as int, v as int) == Some(
            ((e1 & 0x000f_ffff_ffff_f000) | (v & 0xfff)) as int,
        ),
{
    lemma_fields(cr3, v);
    lemma_fields(e4, v);
    lemma_fields(e3, v);
    lemma_fields(e2, v);
    lemma_fields(e1, v);
    reveal_with_fuel(walk, 5);
}

/// A 2 MiB page: the entry of the second level gives bits 51 to 21 of the physical
/// address, the virtual address the others.
pub proof fn law_2m_pages(
    regions: Seq<MappedRegion>,
    cr3: u64,
    v: u64,
    e4: u64,
    e3: u64,
    e2: u64,
)
    requires
        v < 0x8000_0000_0000 || v >= 0xffff_8000_0000_0000,
        holds_entry(regions, cr3, v >> 39u64, e4),
        e4 & 1 == 1 && e4 & 0x80 == 0,
        holds_entry(regions, e4, v >> 30u64, e3),
        e3 & 1 == 1 && e3 & 0x80 == 0,
        holds_entry(regions, e3, v >> 21u64, e2),
        e2 & 1 == 1 && e2 & 0x80 == 0x80,
    ensures
        translate(regions, cr3 as int, v as int) == Some(
            ((e2 & 0x000f_ffff_ffe0_0000) | (v & 0x1f_ffff)) as int,
        ),
{
    lemma_fields(cr3, v);
    lemma_fields(e4, v);
    lemma_fields(e3, v);
    lemma_fields(e2, v);
    reveal_with_fuel(walk, 5);
}

/// A 1 GiB page: the entry of the third level gives bits 51 to 30 of the physical
/// address, the virtual address the others.
pub proof fn law_1g_pages(regions: Seq<MappedRegion>, cr3: u64, v: u64, e4: u64, e3: u64)
    requires
        v < 0x8000_0000_0000 || v >= 0xffff_8000_0000_0000,
        holds_entry(regions, cr3, v >> 39u64, e4),
        e4 & 1 == 1 && e4 & 0x80 == 0,
        holds_entry(regions, e4, v >> 30u64, e3),
        e3 & 1 == 1 && e3 & 0x80 == 0x80,
    ensures
        translate(regions, cr3 as int, v as int) == Some(
            ((e3 & 0x000f_ffff_c000_0000) | (v & 0x3fff_ffff)) as int,
        ),
{
    lemma_fields(cr3, v);
    lemma_fields(e4, v);
    lemma_fields(e3, v);
    reveal_with_fuel(walk, 5);
}

/// A 2 MiB page is mapped linearly as a whole: all of its addresses are translated,
/// each in the same distance from its address.
pub proof fn law_2m_pages_are_linear(
    regions: Seq<MappedRegion>,
    cr3: u64,
    v: u64,
    w: u64,
    e4: u64,
    e3: u64,
    e2: u64,
)
    requires
        v < 0x8000_0000_0000 || v >= 0xffff_8000_0000_0000,
        v / 0x20_0000 == w / 0x20_0000,
        holds_entry(regions, cr3, v >> 39u64, e4),
        e4 & 1 == 1 && e4 & 0x80 == 0,
        holds_entry(regions, e4, v >> 30u64, e3),
        e3 & 1 == 1 && e3 & 0x80 == 0,
        holds_entry(regions, e3, v >> 21u64, e2),
        e2 & 1 == 1 && e2 & 0x80 == 0x80,
    ensures
        translate(regions, cr3 as int, v as int) is Some,
        translate(regions, cr3 as int, w as int) == Some(
            translate(regions, cr3 as int, v as int)->0 + (w - v),
        ),
{
    assert(v >> 39u64 == w >> 39u64 && v >> 30u64 == w >> 30u64 && v >> 21u64 == w >> 21u64)
        by (bit_vector)
        requires
            v / 0x20_0000 == w / 0x20_0000,
    ;
    law_2m_pages(regions, cr3, v, e4, e3, e2);
    law_2m_pages(regions, cr3, w, e4, e3, e2);
    lemma_fields(e2, v);
    lemma_fields(e2, w);
}

/// A 1 GiB page is mapped linearly as a whole.
pub proof fn law_1g_pages_are_linear(
    regions: Seq<MappedRegion>,
    cr3: u64,
    v: u64,
    w: u64,
    e4: u64,
    e3: u64,
)
    requires
        v < 0x8000_0000_0000 || v >= 0xffff_8000_0000_0000,
        v / 0x4000_0000 == w / 0x4000_0000,
        holds_entry(regions, cr3, v >> 39u64, e4),
        e4 & 1 == 1 && e4 & 0x80 == 0,
        holds_entry(regions, e4, v >> 30u64, e3),
        e3 & 1 == 1 && e3 & 0x80 == 0x80,
    ensures
        translate(regions, cr3 as int, v as int) is Some,
        translate(regions, cr3 as int, w as int) == Some(
            translate(regions, cr3 as int, v as int)->0 + (w - v),
        ),
{
    assert(v >> 39u64 == w >> 39u64 && v >> 30u64 == w >> 30u64) by (bit_vector)
        requires
            v / 0x4000_0000 == w / 0x4000_0000,
    ;
    law_1g_pages(regions, cr3, v, e4, e3);
    law_1g_pages(regions, cr3, w, e4, e3);
    lemma_fields(e3, v);
    lemma_fields(e3, w);
}

/// Whether a table holds a present entry for an address with these nine bits as
/// index, in memory that can be read.
pub open spec fn holds_present_entry(regions: Seq<MappedRegion>, table: u64, index: u64) -> bool {
    phys_u64(regions, (table & 0x000f_ffff_ffff_f000) + 8 * (index & 0x1ff)) matches Some(entry)
        && entry % 2 == 1
}

/// What is not translated: an address that is not canonical, and one on the way to
/// which, at any of the four levels, an entry is not present or cannot be read, or
/// the top level claims to map a page.
pub proof fn law_faults(
    regions: Seq<MappedRegion>,
    cr3: u64,
    v: u64,
    e4: u64,
    e3: u64,
    e2: u64,
)
    requires
        ({
            ||| 0x8000_0000_0000 <= v < 0xffff_8000_0000_0000
            ||| !holds_present_entry(regions, cr3, v >> 39u64)
            ||| holds_entry(regions, cr3, v >> 39u64, e4) && e4 & 0x80 == 0x80
            ||| holds_entry(regions, cr3, v >> 39u64, e4) && !holds_present_entry(
                regions,
                e4,
                v >> 30u64,
            )
            ||| holds_entry(regions, cr3, v >> 39u64, e4) && holds_entry(
                regions,
                e4,
                v >> 30u64,
                e3,
            ) && e3 & 0x80 == 0 && !holds_present_entry(regions, e3, v >> 21u64)
            ||| holds_entry(regions, cr3, v >> 39u64, e4) && holds_entry(
                regions,
                e4,
                v >> 30u64,
                e3,
            ) && e3 & 0x80 == 0 && holds_entry(regions, e3, v >> 21u64, e2) && e2 & 0x80 == 0
                && !holds_present_entry(regions, e2, v >> 12u64)
        }),
    ensures
        translate(regions, cr3 as int, v as int) is None,
{
    lemma_fields(cr3, v);
    lemma_fields(e4, v);
    lemma_fields(e3, v);
    lemma_fields(e2, v);
    reveal_with_fuel(walk, 5);
}

} // verus!
