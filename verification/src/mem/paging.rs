//! Page-table layout: addresses built from table indices, the recursive entry of a
//! level-4 table, the entries of a fresh level-4 table, and the steps of remapping a
//! region into a new page table.
use vstd::prelude::*;
use crate::mem::addr::{is_canonical, virt_addr_new};
use crate::text::push_char;

verus! {

/// The number of entries in a page table.
pub const ENTRY_COUNT: usize = 512;

/// Page table entry flags, as the `x86_64` crate numbers them.
pub const PRESENT: u64 = 0x1;
pub const WRITABLE: u64 = 0x2;
pub const USER_ACCESSIBLE: u64 = 0x4;
pub const HUGE_PAGE: u64 = 0x80;
pub const NO_EXECUTE: u64 = 0x8000_0000_0000_0000;

/// The low 48 bits of `vaddr`, with bits 48 to 63 set to bit 47.
pub open spec fn sign_extended(vaddr: u64) -> u64 {
    let low = vaddr & 0xFFFF_FFFF_FFFF;
    if low & 0x8000_0000_0000 == 0 {
        low
    } else {
        low | 0xFFFF_0000_0000_0000
    }
}

/// A sign-extended address is canonical.
pub proof fn lemma_sign_extended_canonical(vaddr: u64)
    ensures
        is_canonical(sign_extended(vaddr) as int),
{
    assert((vaddr & 0xFFFF_FFFF_FFFF) & 0x8000_0000_0000 == 0 ==> (vaddr & 0xFFFF_FFFF_FFFF) < 0x8000_0000_0000) by (bit_vector);
    assert((vaddr & 0xFFFF_FFFF_FFFF) & 0x8000_0000_0000 != 0 ==> ((vaddr & 0xFFFF_FFFF_FFFF) | 0xFFFF_0000_0000_0000) >= 0xFFFF_8000_0000_0000u64) by (bit_vector);
}

/// Sign extension leaves a canonical address as it is, and extending twice is extending
/// once.
pub proof fn lemma_sign_extend_fixes_canonical(vaddr: u64)
    ensures
        is_canonical(vaddr as int) ==> sign_extended(vaddr) == vaddr,
        sign_extended(sign_extended(vaddr)) == sign_extended(vaddr),
{
    assert(vaddr < 0x8000_0000_0000u64 ==> ((vaddr & 0xFFFF_FFFF_FFFF) & 0x8000_0000_0000 == 0 && (vaddr & 0xFFFF_FFFF_FFFF) == vaddr)) by (bit_vector);
    assert(vaddr >= 0xFFFF_8000_0000_0000u64 ==> ((vaddr & 0xFFFF_FFFF_FFFF) & 0x8000_0000_0000 != 0 && ((vaddr & 0xFFFF_FFFF_FFFF) | 0xFFFF_0000_0000_0000) == vaddr)) by (bit_vector);
    lemma_sign_extended_canonical(vaddr);
    let e = sign_extended(vaddr);
    assert(e < 0x8000_0000_0000u64 ==> ((e & 0xFFFF_FFFF_FFFF) & 0x8000_0000_0000 == 0 && (e & 0xFFFF_FFFF_FFFF) == e)) by (bit_vector);
    assert(e >= 0xFFFF_8000_0000_0000u64 ==> ((e & 0xFFFF_FFFF_FFFF) & 0x8000_0000_0000 != 0 && ((e & 0xFFFF_FFFF_FFFF) | 0xFFFF_0000_0000_0000) == e)) by (bit_vector);
}

/// Copies bit 47 of a 48-bit address into bits 48 to 63.
pub fn sign_extend_vaddr(vaddr: u64) -> (r: u64)
    ensures
        r == sign_extended(vaddr),
        is_canonical(r as int),
{
    proof {
        lemma_sign_extended_canonical(vaddr);
    }
    let low = vaddr & 0xFFFF_FFFF_FFFF;
    if low & 0x8000_0000_0000 == 0 {
        low
    } else {
        low | 0xFFFF_0000_0000_0000
    }
}

/// The address whose four table indices are all `i` (before sign extension).
pub open spec fn recursive_bits(i: u64) -> u64 {
    (i << 39u64) | (i << 30u64) | (i << 21u64) | (i << 12u64)
}

/// The virtual address at which a level-4 table whose entry `i` points to itself is
/// reachable: every one of the four indices is `i`.
pub open spec fn recursive_vaddr(i: int) -> int {
    i * 0x80_4020_1000 + if i >= 256 {
        0xFFFF_0000_0000_0000int
    } else {
        0
    }
}

/// The virtual address of the level-4 table under the recursive index.
pub fn recursive_index_to_virtual_address(recursive_index: usize) -> (r: u64)
    ensures
        r == sign_extended(recursive_bits(recursive_index as u64)),
        recursive_index < ENTRY_COUNT ==> r == recursive_vaddr(recursive_index as int),
{
    let i = recursive_index as u64;
    let addr = (i << 39u64) | (i << 30u64) | (i << 21u64) | (i << 12u64);
    let addr = sign_extend_vaddr(addr);
    proof {
        if recursive_index < ENTRY_COUNT {
            let b = recursive_bits(i);
            assert(i < 512 ==> (i << 39u64) | (i << 30u64) | (i << 21u64) | (i << 12u64) == i * 0x80_4020_1000) by (bit_vector);
            assert(i < 512 ==> (((i * 0x80_4020_1000) as u64) & 0xFFFF_FFFF_FFFF) == i * 0x80_4020_1000) by (bit_vector);
            assert(i < 256 ==> ((i * 0x80_4020_1000) as u64) & 0x8000_0000_0000 == 0) by (bit_vector);
            assert(256 <= i < 512 ==> ((i * 0x80_4020_1000) as u64) & 0x8000_0000_0000 != 0) by (bit_vector);
            assert(256 <= i < 512 ==> ((i * 0x80_4020_1000) as u64) | 0xFFFF_0000_0000_0000 == i * 0x80_4020_1000 + 0xFFFF_0000_0000_0000) by (bit_vector);
            assert(b == i * 0x80_4020_1000);
        }
    }
    virt_addr_new(addr)
}

/// The address under a recursive index is the address whose four table indices all equal
/// that index, at page offset 0.
pub proof fn lemma_recursive_address_indices(i: int)
    requires
        0 <= i < 512,
    ensures
        recursive_vaddr(i) == i * 0x80_0000_0000 + i * 0x4000_0000 + i * 0x20_0000 + i * 0x1000 + if i >= 256 {
            0xFFFF_0000_0000_0000int
        } else {
            0
        },
{
}

/// The address with the given four table indices and page offset, before sign
/// extension: each index shifted to its place, the offset cut to its low 12 bits.
pub open spec fn index_bits(i0: u16, i1: u16, i2: u16, i3: u16, offset: u64) -> u64 {
    ((i0 as u64) << 39u64) | ((i1 as u64) << 30u64) | ((i2 as u64) << 21u64) | ((i3 as u64) << 12u64) | (offset & 0xFFF)
}

/// The virtual address with the given level-4 to level-1 indices and page offset.
pub fn virt_addr_from_page_table_indices(indices: [u16; 4], offset: u64) -> (r: u64)
    ensures
        r == sign_extended(index_bits(indices[0], indices[1], indices[2], indices[3], offset)),
        indices[0] < 512 && indices[1] < 512 && indices[2] < 512 && indices[3] < 512 ==> r == (
            indices[0] as int) * 0x80_0000_0000 + (indices[1] as int) * 0x4000_0000 + (indices[2] as int) * 0x20_0000
            + (indices[3] as int) * 0x1000 + offset % 4096 + if indices[0] >= 256 {
            0xFFFF_0000_0000_0000int
        } else {
            0
        },
{
    let i0 = indices[0] as u64;
    let i1 = indices[1] as u64;
    let i2 = indices[2] as u64;
    let i3 = indices[3] as u64;
    let addr = (i0 << 39u64) | (i1 << 30u64) | (i2 << 21u64) | (i3 << 12u64) | (offset & 0xFFF);
    proof {
        if i0 < 512 && i1 < 512 && i2 < 512 && i3 < 512 {
            let o = offset;
            let sum: u64 = (i0 * 0x80_0000_0000 + i1 * 0x4000_0000 + i2 * 0x20_0000 + i3 * 0x1000 + o % 4096) as u64;
            assert(i0 < 512 && i1 < 512 && i2 < 512 && i3 < 512 ==> (i0 << 39u64) | (i1 << 30u64) | (i2 << 21u64) | (i3 << 12u64) | (o & 0xFFF)
                == i0 * 0x80_0000_0000 + i1 * 0x4000_0000 + i2 * 0x20_0000 + i3 * 0x1000 + o % 4096) by (bit_vector);
            assert(i0 < 512 && i1 < 512 && i2 < 512 && i3 < 512 ==> ((i0 * 0x80_0000_0000 + i1 * 0x4000_0000 + i2 * 0x20_0000 + i3 * 0x1000 + o % 4096) as u64) & 0xFFFF_FFFF_FFFF
                == i0 * 0x80_0000_0000 + i1 * 0x4000_0000 + i2 * 0x20_0000 + i3 * 0x1000 + o % 4096) by (bit_vector);
            assert(i0 < 256 && i1 < 512 && i2 < 512 && i3 < 512 ==> ((i0 * 0x80_0000_0000 + i1 * 0x4000_0000 + i2 * 0x20_0000 + i3 * 0x1000 + o % 4096) as u64) & 0x8000_0000_0000 == 0) by (bit_vector);
            assert(256 <= i0 < 512 && i1 < 512 && i2 < 512 && i3 < 512 ==> ((i0 * 0x80_0000_0000 + i1 * 0x4000_0000 + i2 * 0x20_0000 + i3 * 0x1000 + o % 4096) as u64) & 0x8000_0000_0000 != 0) by (bit_vector);
            assert(256 <= i0 < 512 && i1 < 512 && i2 < 512 && i3 < 512 ==> ((i0 * 0x80_0000_0000 + i1 * 0x4000_0000 + i2 * 0x20_0000 + i3 * 0x1000 + o % 4096) as u64) | 0xFFFF_0000_0000_0000
                == i0 * 0x80_0000_0000 + i1 * 0x4000_0000 + i2 * 0x20_0000 + i3 * 0x1000 + o % 4096 + 0xFFFF_0000_0000_0000) by (bit_vector);
            assert(addr == sum);
        }
    }
    let addr = sign_extend_vaddr(addr);
    virt_addr_new(addr)
}

/// The position of the last entry of `table` that is unused (zero), if there is one.
pub fn last_unused_index(table: &Vec<u64>) -> (r: Option<usize>)
    ensures
        match r {
            Some(i) => i < table.len() && table@[i as int] == 0 && forall|j: int| i < j < table.len() ==> table@[j] != 0,
            None => forall|j: int| 0 <= j < table.len() ==> table@[j] != 0,
        },
{
    let mut i = table.len();
    while i > 0
        invariant
            i <= table.len(),
            forall|j: int| i <= j < table.len() ==> table@[j] != 0,
        decreases i,
    {
        if table[i - 1] == 0 {
            return Some(i - 1);
        }
        i = i - 1;
    }
    None
}

/// The positions, from `from` on and in order, of the unused entries of `table`.
pub open spec fn unused_from(table: Seq<u64>, from: int) -> Seq<usize>
    decreases table.len() - from,
{
    if from < 0 || from >= table.len() {
        Seq::empty()
    } else if table[from] == 0 {
        seq![from as usize] + unused_from(table, from + 1)
    } else {
        unused_from(table, from + 1)
    }
}

/// The positions of the unused entries of `table` from `from` on.
pub fn unused_indices_from(table: &Vec<u64>, from: usize) -> (r: Vec<usize>)
    ensures
        r@ == unused_from(table@, from as int),
{
    let mut r: Vec<usize> = Vec::new();
    let mut i = from;
    if i > table.len() {
        i = table.len();
    }
    proof {
        if from > table.len() {
            assert(unused_from(table@, from as int) == Seq::<usize>::empty());
            assert(unused_from(table@, table.len() as int) == Seq::<usize>::empty());
        }
    }
    while i < table.len()
        invariant
            from <= i <= table.len() || (from > table.len() && i == table.len()),
            r@ + unused_from(table@, i as int) == unused_from(table@, from as int),
        decreases table.len() - i,
    {
        if table[i] == 0 {
            proof {
                assert(r@.push(i) + unused_from(table@, i + 1) =~= r@ + unused_from(table@, i as int));
            }
            r.push(i);
        }
        i = i + 1;
    }
    proof {
        assert(unused_from(table@, i as int) == Seq::<usize>::empty());
        assert(r@ =~= r@ + Seq::<usize>::empty());
    }
    r
}

/// The table that a new address space starts with: zero everywhere but from `first_shared`
/// on, where it holds the entries of `current`, which map what all address spaces share.
pub fn copy_shared_entries(current: &Vec<u64>, first_shared: usize) -> (r: Vec<u64>)
    ensures
        r@.len() == current@.len(),
        forall|j: int| 0 <= j < current@.len() ==> #[trigger] r@[j] == if j >= first_shared {
            current@[j]
        } else {
            0
        },
{
    let mut r: Vec<u64> = Vec::new();
    let mut i: usize = 0;
    while i < current.len()
        invariant
            i <= current.len(),
            r@.len() == i,
            forall|j: int| 0 <= j < i ==> #[trigger] r@[j] == if j >= first_shared {
                current@[j]
            } else {
                0
            },
        decreases current.len() - i,
    {
        if i >= first_shared {
            r.push(current[i]);
        } else {
            r.push(0);
        }
        i = i + 1;
    }
    r
}

/// Points entry `index` of `table` to the frame at `frame` with `flags`, as
/// `PageTableEntry::set_frame` of the `x86_64` crate does: the entry becomes the frame's
/// address with the flag bits set.
pub fn set_entry(table: &mut Vec<u64>, index: usize, frame: u64, flags: u64)
    requires
        index < old(table)@.len(),
        frame % 4096 == 0,
        flags & HUGE_PAGE == 0,
    ensures
        final(table)@ == old(table)@.update(index as int, frame | flags),
{
    table.set(index, frame | flags);
}

/// Entry `j` of a table that shares the entries of `current` from `first_shared` on.
pub open spec fn shared_entry(current: Seq<u64>, first_shared: usize, j: int) -> u64 {
    if j >= first_shared {
        current[j]
    } else {
        0
    }
}

/// The level-4 table of a new address space whose table lies in the frame at `frame`:
/// the entries from `first_shared` on come from `current`, and the last unused entry
/// becomes the recursive entry, present and writable. Returns the table and the
/// recursive index; `None` if no entry but the first is unused, since the first must stay
/// free for user space.
pub fn new_level4_table(current: &Vec<u64>, first_shared: usize, frame: u64) -> (r: Option<(Vec<u64>, usize)>)
    requires
        frame % 4096 == 0,
    ensures
        match r {
            Some((t, i)) => {
                &&& 0 < i < current@.len()
                &&& shared_entry(current@, first_shared, i as int) == 0
                &&& forall|j: int| i < j < current@.len() ==> #[trigger] current@[j] != 0 && j >= first_shared
                &&& t@.len() == current@.len()
                &&& t@[i as int] == frame | (PRESENT | WRITABLE)
                &&& forall|j: int| 0 <= j < current@.len() && j != i ==> #[trigger] t@[j] == shared_entry(current@, first_shared, j)
            },
            None => forall|j: int| 0 < j < current@.len() ==> #[trigger] shared_entry(current@, first_shared, j) != 0,
        },
{
    let mut table = copy_shared_entries(current, first_shared);
    let ghost base = table@;
    match last_unused_index(&table) {
        Some(i) => {
            if i == 0 {
                proof {
                    assert forall|j: int| 0 < j < current@.len() implies #[trigger] shared_entry(current@, first_shared, j) != 0 by {
                        assert(base[j] != 0);
                    assert(base[j] == shared_entry(current@, first_shared, j));
                    }
                }
                return None;
            }
            assert((PRESENT | WRITABLE) & HUGE_PAGE == 0) by (bit_vector);
            set_entry(&mut table, i, frame, PRESENT | WRITABLE);
            proof {
                assert(base[i as int] == 0);
                assert forall|j: int| i < j < current@.len() implies #[trigger] current@[j] != 0 && j >= first_shared by {
                    assert(base[j] != 0);
                    assert(base[j] == shared_entry(current@, first_shared, j));
                }
                assert forall|j: int| 0 <= j < current@.len() && j != i implies #[trigger] table@[j] == shared_entry(current@, first_shared, j) by {
                    assert(base[j] == shared_entry(current@, first_shared, j));
                }
                assert(table@[i as int] == frame | (PRESENT | WRITABLE));
                assert(table@.len() == current@.len());
                assert(0 < i < current@.len());
                assert(shared_entry(current@, first_shared, i as int) == 0);
            }
            Some((table, i))
        },
        None => {
            proof {
                assert forall|j: int| 0 < j < current@.len() implies #[trigger] shared_entry(current@, first_shared, j) != 0 by {
                    assert(base[j] != 0);
                    assert(base[j] == shared_entry(current@, first_shared, j));
                }
            }
            None
        },
    }
}

/// The level-4 table of a new address space that shares the upper half with `old`: the
/// upper 256 entries come from `old`, the rest are unused, and entry `recursive_index`
/// points to the new table's own frame, present, writable and not executable.
pub fn upper_half_table(old: &Vec<u64>, recursive_index: usize, frame: u64) -> (r: Vec<u64>)
    requires
        recursive_index < old@.len(),
        frame % 4096 == 0,
    ensures
        r@.len() == old@.len(),
        r@[recursive_index as int] == frame | (PRESENT | WRITABLE | NO_EXECUTE),
        forall|j: int| 0 <= j < old@.len() && j != recursive_index ==> #[trigger] r@[j] == if j >= 256 { old@[j] } else { 0 },
{
    let mut table = copy_shared_entries(old, 256);
    assert((PRESENT | WRITABLE | NO_EXECUTE) & HUGE_PAGE == 0) by (bit_vector);
    set_entry(&mut table, recursive_index, frame, PRESENT | WRITABLE | NO_EXECUTE);
    table
}

/// The size of a mapped page or frame.
#[derive(Debug, Clone, Copy, PartialEq, Eq, Structural)]
pub enum FrameSize {
    Size4KiB,
    Size2MiB,
    Size1GiB,
}

/// The number of bytes of a page or frame of size `s`.
pub open spec fn frame_bytes(s: FrameSize) -> int {
    match s {
        FrameSize::Size4KiB => 0x1000,
        FrameSize::Size2MiB => 0x20_0000,
        FrameSize::Size1GiB => 0x4000_0000,
    }
}

impl FrameSize {
    /// The number of bytes of a page or frame of this size.
    pub fn bytes(&self) -> (r: u64)
        ensures
            r == frame_bytes(*self),
    {
        match self {
            FrameSize::Size4KiB => 0x1000,
            FrameSize::Size2MiB => 0x20_0000,
            FrameSize::Size1GiB => 0x4000_0000,
        }
    }
}

/// How an address is mapped in the current page table: the start of the frame that
/// holds it, the frame's size, the address's offset in the frame, and the flags.
#[derive(Debug, Clone, Copy, PartialEq, Eq, Structural)]
pub struct CurrentMapping {
    pub frame: u64,
    pub size: FrameSize,
    pub offset: u64,
    pub flags: u64,
}

/// A mapping of the page at `page` to the frame at `frame`, both of `size`, with `flags`.
#[derive(Debug, Clone, Copy, PartialEq, Eq, Structural)]
pub struct Mapping {
    pub page: u64,
    pub frame: u64,
    pub size: FrameSize,
    pub flags: u64,
}

/// The flags that a remapping keeps: present, writable, no-execute and huge page.
pub const REMAP_KEPT_FLAGS: u64 = 0x8000_0000_0000_0083;

/// The flags of the 4 KiB pieces of a huge page: present, writable and no-execute.
pub const SPLIT_KEPT_FLAGS: u64 = 0x8000_0000_0000_0003;

/// `x` rounded down to a multiple of `size`.
pub open spec fn align_down(x: int, size: int) -> int {
    x - x % size
}

/// Whether the `k`-th 4 KiB piece of a huge page that `current` enters at `offset` lies
/// both below `end` and inside the huge page.
pub open spec fn piece_in(current: int, end: int, offset: int, size: int, k: int) -> bool {
    current + 4096 * k < end && offset + 4096 * k < size
}

/// The mapping of the whole frame of `t`, entered at its start, from the page at `current`.
pub open spec fn whole_mapping(current: u64, t: CurrentMapping) -> Mapping {
    Mapping {
        page: align_down(current as int, frame_bytes(t.size)) as u64,
        frame: t.frame,
        size: t.size,
        flags: t.flags & REMAP_KEPT_FLAGS,
    }
}

/// The mapping of the `k`-th 4 KiB piece of the huge frame of `t`, entered at `current`.
pub open spec fn piece_mapping(current: u64, t: CurrentMapping, k: int) -> Mapping {
    Mapping {
        page: align_down(current + 4096 * k, 4096) as u64,
        frame: align_down(t.frame + t.offset + 4096 * k, 4096) as u64,
        size: FrameSize::Size4KiB,
        flags: t.flags & SPLIT_KEPT_FLAGS,
    }
}

/// Whether a current mapping can be remapped by one step from `current`: it lies in its
/// frame, a huge page entered part way is a 2 MiB one, and every address that the step
/// computes is canonical or a valid physical address.
pub open spec fn remap_step_ok(current: u64, t: CurrentMapping) -> bool {
    &&& t.offset < frame_bytes(t.size)
    &&& t.offset != 0 ==> t.size == FrameSize::Size2MiB
    &&& is_canonical(current as int)
    &&& is_canonical(current + frame_bytes(t.size) - t.offset)
    &&& t.frame + frame_bytes(t.size) < 0x10_0000_0000_0000
}

/// Whether a current mapping can be remapped by one step from `current`.
pub fn remap_step_ok_exec(current: u64, t: CurrentMapping) -> (r: bool)
    ensures
        r == remap_step_ok(current, t),
{
    let size = t.size.bytes();
    if t.offset >= size {
        return false;
    }
    if t.offset != 0 && t.size != FrameSize::Size2MiB {
        return false;
    }
    let lower_end: u64 = 0x8000_0000_0000;
    let upper_start: u64 = 0xFFFF_8000_0000_0000;
    if !(current < lower_end || current >= upper_start) {
        return false;
    }
    if current > u64::MAX - (size - t.offset) {
        return false;
    }
    let next = current + (size - t.offset);
    if !(next < lower_end || next >= upper_start) {
        return false;
    }
    t.frame < 0x10_0000_0000_0000 - size
}

/// One step of remapping the region below `end` into a new page table, at `current`,
/// which the current table maps as `t`. A frame entered at its start is mapped whole,
/// page to frame; a 2 MiB frame entered part way is mapped in 4 KiB pieces, as far as
/// the region and the frame reach. Returns the mappings and the next address.
pub fn remap_step(current: u64, end: u64, t: CurrentMapping) -> (r: (Vec<Mapping>, u64))
    requires
        current < end,
        remap_step_ok(current, t),
    ensures
        r.1 == current + frame_bytes(t.size) - t.offset,
        t.offset == 0 ==> r.0@ == seq![whole_mapping(current, t)],
        t.offset != 0 ==> {
            &&& forall|k: int| 0 <= k < r.0@.len() ==> piece_in(current as int, end as int, t.offset as int, 0x20_0000, k)
            &&& !piece_in(current as int, end as int, t.offset as int, 0x20_0000, r.0@.len() as int)
            &&& forall|k: int| 0 <= k < r.0@.len() ==> #[trigger] r.0@[k] == piece_mapping(current, t, k)
        },
{
    let size = t.size.bytes();
    let mut maps: Vec<Mapping> = Vec::new();
    if t.offset != 0 {
        let flags = t.flags & SPLIT_KEPT_FLAGS;
        let mut off: u64 = 0;
        while off < end - current && t.offset + off < size
            invariant
                current < end,
                remap_step_ok(current, t),
                t.offset != 0,
                size == frame_bytes(t.size),
                size == 0x20_0000,
                flags == t.flags & SPLIT_KEPT_FLAGS,
                off == 4096 * maps@.len(),
                off < size + 4096,
                forall|k: int| 0 <= k < maps@.len() ==> piece_in(current as int, end as int, t.offset as int, 0x20_0000, k),
                forall|k: int| 0 <= k < maps@.len() ==> #[trigger] maps@[k] == piece_mapping(current, t, k),
            decreases size - off,
        {
            let page_addr = current + off;
            let page = page_addr - page_addr % 4096;
            let frame_addr = t.frame + t.offset + off;
            let frame = frame_addr - frame_addr % 4096;
            maps.push(Mapping { page, frame, size: FrameSize::Size4KiB, flags });
            off = off + 4096;
        }
    } else {
        let page = current - current % size;
        maps.push(Mapping { page, frame: t.frame, size: t.size, flags: t.flags & REMAP_KEPT_FLAGS });
    }
    (maps, current + (size - t.offset))
}

/// The physical address to which mapping `m` translates the virtual address `a`, if
/// `a` lies in its page.
pub open spec fn translates(m: Mapping, a: int) -> Option<int> {
    if m.page <= a < m.page + frame_bytes(m.size) {
        Some(m.frame + (a - m.page))
    } else {
        None
    }
}

/// The addresses from `current` on that one remapping step covers: the rest of a frame
/// mapped whole, or the 4 KiB pieces that it mapped.
pub open spec fn step_covers(current: u64, t: CurrentMapping, maps: Seq<Mapping>) -> int {
    if t.offset == 0 {
        frame_bytes(t.size)
    } else {
        4096 * (maps.len() as int)
    }
}

/// A remapping step keeps every address it covers where it was: the new mappings
/// translate an address to the physical address to which the current table does. Here
/// `current` is a page address that lies `t.offset` into its frame, as a page table
/// reports it, and the frame is page aligned; `end` is the end of the region, as in
/// `remap_step`.
pub proof fn lemma_remap_step_keeps_translation(current: u64, end: u64, t: CurrentMapping, maps: Seq<Mapping>, a: int)
    requires
        remap_step_ok(current, t),
        current % 4096 == 0,
        (current as int) % frame_bytes(t.size) == t.offset,
        t.frame % 4096 == 0,
        t.offset == 0 ==> maps == seq![whole_mapping(current, t)],
        t.offset != 0 ==> forall|k: int| 0 <= k < maps.len() ==> #[trigger] maps[k] == piece_mapping(current, t, k),
        t.offset != 0 ==> forall|k: int| 0 <= k < maps.len() ==> piece_in(current as int, end as int, t.offset as int, 0x20_0000, k),
        current <= a < current + step_covers(current, t, maps),
    ensures
        exists|k: int| 0 <= k < maps.len() && #[trigger] translates(maps[k], a) == Some(t.frame + t.offset + (a - current)),
{
    let size = frame_bytes(t.size);
    if t.offset == 0 {
        assert(align_down(current as int, size) == current as int);
        assert(translates(maps[0], a) == Some(t.frame + t.offset + (a - current)));
    } else {
        let d = a - current;
        let k = d / 4096;
        let n = maps.len() as int;
        assert(0 <= k < n && 4096 * k <= d < 4096 * k + 4096) by (nonlinear_arith)
            requires
                0 <= d < 4096 * n,
                k == d / 4096,
        ;
        let p = current + 4096 * k;
        assert((current + 4096 * k) % 4096 == 0) by (nonlinear_arith)
            requires
                current % 4096 == 0,
                k >= 0,
        ;
        assert(t.offset % 4096 == 0) by (nonlinear_arith)
            requires
                current % 4096 == 0,
                current % 0x20_0000 == t.offset,
        {
            assert(current as int == (current as int / 0x20_0000) * 0x20_0000 + t.offset);
        }
        assert((t.frame + t.offset + 4096 * k) % 4096 == 0) by (nonlinear_arith)
            requires
                t.frame % 4096 == 0,
                t.offset % 4096 == 0,
                k >= 0,
        ;
        assert(maps[k] == piece_mapping(current, t, k));
        assert(piece_in(current as int, end as int, t.offset as int, 0x20_0000, k));
        assert(maps[k].page == p);
        assert(maps[k].frame == t.frame + t.offset + 4096 * k);
        assert(translates(maps[k], a) == Some(t.frame + t.offset + (a - current)));
    }
}

/// The character for a flag: `c` if it is set, `-` if not.
pub open spec fn flag_char(set: bool, c: char) -> char {
    if set {
        c
    } else {
        '-'
    }
}

/// The flags as text: user accessible (`u`), present (`r`), writable (`w`), and
/// executable (`x`, for a page without the no-execute flag); `-` for each one missing.
pub fn page_table_flags_to_string(flags: u64) -> (r: String)
    ensures
        r@ == seq![
            flag_char(flags & USER_ACCESSIBLE != 0, 'u'),
            flag_char(flags & PRESENT != 0, 'r'),
            flag_char(flags & WRITABLE != 0, 'w'),
            flag_char(flags & NO_EXECUTE == 0, 'x'),
        ],
{
    let mut s = String::new();
    push_char(&mut s, if flags & USER_ACCESSIBLE != 0 { 'u' } else { '-' });
    push_char(&mut s, if flags & PRESENT != 0 { 'r' } else { '-' });
    push_char(&mut s, if flags & WRITABLE != 0 { 'w' } else { '-' });
    push_char(&mut s, if flags & NO_EXECUTE == 0 { 'x' } else { '-' });
    proof {
        assert(s@ =~= seq![
            flag_char(flags & USER_ACCESSIBLE != 0, 'u'),
            flag_char(flags & PRESENT != 0, 'r'),
            flag_char(flags & WRITABLE != 0, 'w'),
            flag_char(flags & NO_EXECUTE == 0, 'x'),
        ]);
    }
    s
}

} // verus!
