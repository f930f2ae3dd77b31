//! The kernel's share of virtual memory, the higher half, reserved in whole pages.
use vstd::prelude::*;
use crate::mem::addr::is_canonical;
use crate::mem::paging::{lemma_sign_extended_canonical, recursive_bits, recursive_index_to_virtual_address, recursive_vaddr};
use crate::mem::phys::{EntryType, MemoryMapEntry};
use crate::mem::virt::manager::{align_up, first_fit, first_overlap_from, lemma_first_overlap_none, lemma_first_overlap_some, overlaps, visits_canonical, Interval, OwnedInterval, VirtualMemoryManager, VmmError};

verus! {

/// The error of a segment that overlaps a reserved one.
#[derive(Debug, Clone, Copy, PartialEq, Eq, Structural)]
pub struct AlreadyReserved;

/// Reserves the kernel's virtual memory in the manager of the higher half.
#[derive(Debug, Clone, Copy, PartialEq, Eq, Structural)]
pub struct VirtualMemoryHigherHalf;

impl VirtualMemoryHigherHalf {
    /// Reserves `pages` pages at the lowest place where they fit; `None` if they fit
    /// nowhere.
    pub fn reserve(vmm: &mut VirtualMemoryManager, pages: usize) -> (r: Option<OwnedInterval>)
        requires
            old(vmm).wf(),
            pages * 4096 <= usize::MAX,
            is_canonical(old(vmm).spec_mem_start() + old(vmm).spec_mem_size()),
            visits_canonical(old(vmm)@, old(vmm).spec_mem_start() as int, pages * 4096),
            is_canonical(first_fit(old(vmm)@, old(vmm).spec_mem_start() as int, pages * 4096) + pages * 4096),
        ensures
            final(vmm).wf(),
            final(vmm).spec_mem_start() == old(vmm).spec_mem_start(),
            final(vmm).spec_mem_size() == old(vmm).spec_mem_size(),
            ({
                let sz = pages * 4096;
                let s = first_fit(old(vmm)@, old(vmm).spec_mem_start() as int, sz);
                if s + sz > old(vmm).spec_mem_start() + old(vmm).spec_mem_size() {
                    r is None && final(vmm)@ == old(vmm)@
                } else {
                    r matches Some(o) && o@.spec_start() == s && o@.spec_size() == sz && (forall|x: Interval|
                        #[trigger] final(vmm)@.contains(x) <==> (old(vmm)@.contains(x) || x == o@))
                }
            }),
    {
        assert(align_up(pages * 4096) == pages * 4096) by (nonlinear_arith)
            requires
                pages >= 0,
        ;
        match vmm.reserve(pages * 4096) {
            Ok(o) => Some(o),
            Err(_) => None,
        }
    }

    /// Marks `segment` as reserved, unless it overlaps a reserved segment.
    pub fn mark_as_reserved(vmm: &mut VirtualMemoryManager, segment: Interval) -> (r: Result<(), AlreadyReserved>)
        requires
            old(vmm).wf(),
            is_canonical(segment.spec_start() as int),
            is_canonical(segment.spec_end()),
        ensures
            final(vmm).wf(),
            final(vmm).spec_mem_start() == old(vmm).spec_mem_start(),
            final(vmm).spec_mem_size() == old(vmm).spec_mem_size(),
            match first_overlap_from(old(vmm)@, 0, segment.spec_start() as int, segment.spec_size() as int) {
                Some(_) => r is Err && final(vmm)@ == old(vmm)@,
                None => r is Ok && (forall|x: Interval| #[trigger] final(vmm)@.contains(x) <==> (old(vmm)@.contains(x) || x == segment)),
            },
    {
        match vmm.mark_as_reserved(segment) {
            Ok(o) => {
                let _ = o.leak();
                Ok(())
            },
            Err(_) => Err(AlreadyReserved),
        }
    }

    /// Releases a reserved segment; returns whether it was reserved.
    pub fn release(vmm: &mut VirtualMemoryManager, segment: Interval) -> (r: bool)
        requires
            old(vmm).wf(),
        ensures
            final(vmm).wf(),
            final(vmm).spec_mem_start() == old(vmm).spec_mem_start(),
            final(vmm).spec_mem_size() == old(vmm).spec_mem_size(),
            r == old(vmm)@.contains(segment),
            forall|x: Interval| #[trigger] final(vmm)@.contains(x) <==> (old(vmm)@.contains(x) && x != segment),
    {
        vmm.release(segment)
    }
}

/// The first address of the higher half.
pub const HIGHER_HALF_START: u64 = 0xFFFF_8000_0000_0000;

/// The size of the higher half that the kernel manages.
pub const HIGHER_HALF_SIZE: u64 = 0x0000_7FFF_FFFF_FFFF;

/// The size of the range that the recursive page table entry maps: 512 GiB.
pub const RECURSIVE_RANGE_SIZE: u64 = 0x80_0000_0000;

/// An interval as its start and size.
pub open spec fn pair_of(iv: Interval) -> (int, int) {
    (iv.spec_start() as int, iv.spec_size() as int)
}

/// Whether the ranges `a` and `b`, each a start and a size, share an address.
pub open spec fn ranges_overlap(a: (int, int), b: (int, int)) -> bool {
    a.0 < b.0 + b.1 && b.0 < a.0 + a.1
}

/// Whether the kernel keeps the memory of an entry of this type reserved in the higher
/// half: its executable and modules, and what the bootloader may hand back later.
pub open spec fn kept_in_higher_half(ty: EntryType) -> bool {
    ty == EntryType::ExecutableAndModules || ty == EntryType::BootloaderReclaimable
}

/// The ranges of the kept entries as the higher half sees them, `hhdm_offset` above
/// their physical base, in memory map order.
pub open spec fn kept_ranges(entries: Seq<MemoryMapEntry>, hhdm_offset: u64) -> Seq<(int, int)>
    decreases entries.len(),
{
    if entries.len() == 0 {
        Seq::empty()
    } else {
        let rest = kept_ranges(entries.drop_last(), hhdm_offset);
        let e = entries.last();
        if kept_in_higher_half(e.entry_type) {
            rest.push((e.base + hhdm_offset, e.length as int))
        } else {
            rest
        }
    }
}

/// The ranges that the higher half starts with, in the order in which they are
/// reserved: the recursive mapping's 512 GiB, the kept entries, and the heap.
pub open spec fn initial_ranges(
    recursive_index: int,
    entries: Seq<MemoryMapEntry>,
    hhdm_offset: u64,
    heap_bottom: u64,
    heap_size: usize,
) -> Seq<(int, int)> {
    seq![(recursive_vaddr(recursive_index), RECURSIVE_RANGE_SIZE as int)] + kept_ranges(entries, hhdm_offset)
        + seq![(heap_bottom as int, heap_size as int)]
}

/// No two of the ranges share an address.
pub open spec fn ranges_disjoint(ranges: Seq<(int, int)>) -> bool {
    forall|i: int, j: int| 0 <= i < j < ranges.len() ==> !ranges_overlap(#[trigger] ranges[i], #[trigger] ranges[j])
}

/// Every range that the higher half starts with begins and ends at a canonical address,
/// and its size fits in a `usize`.
pub open spec fn initial_ranges_fit(
    recursive_index: int,
    entries: Seq<MemoryMapEntry>,
    hhdm_offset: u64,
    heap_bottom: u64,
    heap_size: usize,
) -> bool {
    &&& 0 <= recursive_index < 512
    &&& is_canonical(recursive_vaddr(recursive_index) + RECURSIVE_RANGE_SIZE)
    &&& forall|i: int| 0 <= i < entries.len() && kept_in_higher_half(#[trigger] entries[i].entry_type) ==> {
        &&& is_canonical(entries[i].base + hhdm_offset)
        &&& is_canonical(entries[i].base + hhdm_offset + entries[i].length)
        &&& entries[i].length <= usize::MAX
    }
    &&& is_canonical(heap_bottom as int)
    &&& is_canonical(heap_bottom + heap_size)
}

/// Whether `r` is the memory of an executable or bootloader-reclaimable entry of
/// `entries`, `hhdm_offset` above its base.
pub open spec fn kernel_entry_range(entries: Seq<MemoryMapEntry>, hhdm_offset: u64, r: (int, int)) -> bool {
    exists|i: int| #![trigger entries[i]] {
        &&& 0 <= i < entries.len()
        &&& (entries[i].entry_type == EntryType::ExecutableAndModules || entries[i].entry_type == EntryType::BootloaderReclaimable)
        &&& r == (entries[i].base + hhdm_offset, entries[i].length as int)
    }
}

/// Every kept range is the range of an executable or bootloader-reclaimable entry,
/// shifted by `hhdm_offset`, and the range of every such entry is kept.
proof fn lemma_kept_ranges_entries(entries: Seq<MemoryMapEntry>, hhdm_offset: u64)
    ensures
        forall|k: int| 0 <= k < kept_ranges(entries, hhdm_offset).len() ==> kernel_entry_range(entries, hhdm_offset, #[trigger] kept_ranges(entries, hhdm_offset)[k]),
        forall|i: int| 0 <= i < entries.len() && (#[trigger] entries[i].entry_type == EntryType::ExecutableAndModules
            || entries[i].entry_type == EntryType::BootloaderReclaimable) ==> kept_ranges(entries, hhdm_offset).contains(
            (entries[i].base + hhdm_offset, entries[i].length as int),
        ),
    decreases entries.len(),
{
    if entries.len() > 0 {
        let rest = entries.drop_last();
        lemma_kept_ranges_entries(rest, hhdm_offset);
        let kr = kept_ranges(rest, hhdm_offset);
        let e = entries.last();
        let kept = kept_ranges(entries, hhdm_offset);
        assert forall|k: int| 0 <= k < kept.len() implies kernel_entry_range(entries, hhdm_offset, #[trigger] kept[k]) by {
            if k < kr.len() {
                assert(kept[k] == kr[k]);
                assert(kernel_entry_range(rest, hhdm_offset, kr[k]));
                let i = choose|i: int| #![trigger rest[i]] {
                    &&& 0 <= i < rest.len()
                    &&& (rest[i].entry_type == EntryType::ExecutableAndModules || rest[i].entry_type == EntryType::BootloaderReclaimable)
                    &&& kr[k] == (rest[i].base + hhdm_offset, rest[i].length as int)
                };
                assert(rest[i] == entries[i]);
            } else {
                assert(entries[entries.len() - 1] == e);
            }
        }
        assert forall|i: int| 0 <= i < entries.len() && (#[trigger] entries[i].entry_type == EntryType::ExecutableAndModules
            || entries[i].entry_type == EntryType::BootloaderReclaimable) implies kept.contains(
            (entries[i].base + hhdm_offset, entries[i].length as int),
        ) by {
            let r = (entries[i].base + hhdm_offset, entries[i].length as int);
            if i < rest.len() {
                assert(rest[i] == entries[i]);
                assert(kr.contains(r));
                let k = choose|k: int| 0 <= k < kr.len() && kr[k] == r;
                assert(kept[k] == kr[k]);
            } else {
                assert(kept[kept.len() - 1] == r);
            }
        }
    }
}

/// What the higher half starts with: every reserved interval is the recursive mapping's
/// 512 GiB, the heap, or the memory of an executable or bootloader-reclaimable entry
/// `hhdm_offset` above its base; the memory of every such entry is reserved. No other
/// entry (usable, reserved, ACPI, framebuffer, ...) yields a reserved interval. `v` is the
/// manager that `init_higher_half` returned.
pub proof fn lemma_higher_half_reserves_kernel_memory(
    v: VirtualMemoryManager,
    recursive_index: int,
    entries: Seq<MemoryMapEntry>,
    hhdm_offset: u64,
    heap_bottom: u64,
    heap_size: usize,
)
    requires
        forall|x: Interval| #[trigger] v@.contains(x) <==> initial_ranges(recursive_index, entries, hhdm_offset, heap_bottom, heap_size).contains(pair_of(x)),
    ensures
        forall|x: Interval| #[trigger] v@.contains(x) ==> {
            ||| pair_of(x) == (recursive_vaddr(recursive_index), 0x80_0000_0000int)
            ||| pair_of(x) == (heap_bottom as int, heap_size as int)
            ||| kernel_entry_range(entries, hhdm_offset, pair_of(x))
        },
        forall|i: int| 0 <= i < entries.len() && (#[trigger] entries[i].entry_type == EntryType::ExecutableAndModules
            || entries[i].entry_type == EntryType::BootloaderReclaimable) ==> initial_ranges(
            recursive_index, entries, hhdm_offset, heap_bottom, heap_size,
        ).contains((entries[i].base + hhdm_offset, entries[i].length as int)),
{
    lemma_kept_ranges_entries(entries, hhdm_offset);
    let kept = kept_ranges(entries, hhdm_offset);
    let ranges = initial_ranges(recursive_index, entries, hhdm_offset, heap_bottom, heap_size);
    assert forall|x: Interval| #[trigger] v@.contains(x) implies {
        ||| pair_of(x) == (recursive_vaddr(recursive_index), 0x80_0000_0000int)
        ||| pair_of(x) == (heap_bottom as int, heap_size as int)
        ||| kernel_entry_range(entries, hhdm_offset, pair_of(x))
    } by {
        let m = choose|m: int| 0 <= m < ranges.len() && ranges[m] == pair_of(x);
        if 1 <= m < 1 + kept.len() {
            assert(ranges[m] == kept[m - 1]);
        } else if m >= 1 + kept.len() {
            assert(ranges[m] == (heap_bottom as int, heap_size as int));
        }
    }
    assert forall|i: int| 0 <= i < entries.len() && (#[trigger] entries[i].entry_type == EntryType::ExecutableAndModules
        || entries[i].entry_type == EntryType::BootloaderReclaimable) implies ranges.contains(
        (entries[i].base + hhdm_offset, entries[i].length as int),
    ) by {
        let r = (entries[i].base + hhdm_offset, entries[i].length as int);
        let k = choose|k: int| 0 <= k < kept.len() && kept[k] == r;
        assert(ranges[k + 1] == kept[k]);
    }
}

/// The intervals of the kept entries, shifted by `hhdm_offset`, appended to `segs`.
fn push_kept_ranges(segs: &mut Vec<Interval>, entries: &Vec<MemoryMapEntry>, hhdm_offset: u64)
    requires
        forall|i: int| 0 <= i < entries@.len() && kept_in_higher_half(#[trigger] entries@[i].entry_type) ==> {
            &&& is_canonical(entries@[i].base + hhdm_offset)
            &&& entries@[i].length <= usize::MAX
        },
    ensures
        final(segs)@.map_values(|iv: Interval| pair_of(iv)) == old(segs)@.map_values(|iv: Interval| pair_of(iv))
            + kept_ranges(entries@, hhdm_offset),
{
    let ghost start = segs@.map_values(|iv: Interval| pair_of(iv));
    let mut i: usize = 0;
    while i < entries.len()
        invariant
            i <= entries.len(),
            forall|j: int| 0 <= j < entries@.len() && kept_in_higher_half(#[trigger] entries@[j].entry_type) ==> {
                &&& is_canonical(entries@[j].base + hhdm_offset)
                &&& entries@[j].length <= usize::MAX
            },
            segs@.map_values(|iv: Interval| pair_of(iv)) == start + kept_ranges(entries@.take(i as int), hhdm_offset),
        decreases entries.len() - i,
    {
        let e = entries[i];
        proof {
            assert(entries@.take(i + 1).drop_last() =~= entries@.take(i as int));
            assert(entries@.take(i + 1).last() == e);
        }
        if e.entry_type == EntryType::ExecutableAndModules || e.entry_type == EntryType::BootloaderReclaimable {
            assert(kept_in_higher_half(entries@[i as int].entry_type));
            let iv = Interval::new(e.base + hhdm_offset, e.length as usize);
            let ghost before = segs@;
            segs.push(iv);
            proof {
                assert(segs@.map_values(|iv: Interval| pair_of(iv)) =~= before.map_values(|iv: Interval| pair_of(iv)).push(pair_of(iv)));
                assert(start + kept_ranges(entries@.take(i + 1), hhdm_offset) =~= (start + kept_ranges(entries@.take(i as int), hhdm_offset)).push(pair_of(iv)));
            }
        }
        i = i + 1;
    }
    assert(entries@.take(i as int) =~= entries@);
}

/// The virtual memory manager of the higher half, `[0xFFFF_8000_0000_0000,
/// 0xFFFF_8000_0000_0000 + 0x7FFF_FFFF_FFFF)`, with the ranges that are in use from the
/// start reserved one after the other: the 512 GiB that the recursive entry
/// `recursive_index` maps, the executable and bootloader-reclaimable entries of the memory
/// map at `hhdm_offset` above their base, and the heap of `heap_size` bytes at
/// `heap_bottom`. `AlreadyReserved` if one of them overlaps one reserved before it.
pub fn init_higher_half(
    recursive_index: usize,
    entries: &Vec<MemoryMapEntry>,
    hhdm_offset: u64,
    heap_bottom: u64,
    heap_size: usize,
) -> (r: Result<VirtualMemoryManager, AlreadyReserved>)
    requires
        HIGHER_HALF_SIZE <= usize::MAX,
        initial_ranges_fit(recursive_index as int, entries@, hhdm_offset, heap_bottom, heap_size),
    ensures
        ({
            let ranges = initial_ranges(recursive_index as int, entries@, hhdm_offset, heap_bottom, heap_size);
            match r {
                Ok(v) => {
                    &&& ranges_disjoint(ranges)
                    &&& v.wf()
                    &&& v.spec_mem_start() == HIGHER_HALF_START
                    &&& v.spec_mem_size() == HIGHER_HALF_SIZE
                    &&& forall|x: Interval| #[trigger] v@.contains(x) <==> ranges.contains(pair_of(x))
                },
                Err(_) => !ranges_disjoint(ranges),
            }
        }),
{
    let ghost ranges = initial_ranges(recursive_index as int, entries@, hhdm_offset, heap_bottom, heap_size);
    let mut segs: Vec<Interval> = Vec::new();
    let rv = recursive_index_to_virtual_address(recursive_index);
    proof {
        lemma_sign_extended_canonical(recursive_bits(recursive_index as u64));
    }
    segs.push(Interval::new(rv, RECURSIVE_RANGE_SIZE as usize));
    assert(segs@.map_values(|iv: Interval| pair_of(iv)) =~= seq![(recursive_vaddr(recursive_index as int), RECURSIVE_RANGE_SIZE as int)]);
    push_kept_ranges(&mut segs, entries, hhdm_offset);
    let ghost before_heap = segs@;
    segs.push(Interval::new(heap_bottom, heap_size));
    assert(segs@.map_values(|iv: Interval| pair_of(iv)) =~= before_heap.map_values(|iv: Interval| pair_of(iv)).push((heap_bottom as int, heap_size as int)));
    assert(segs@.map_values(|iv: Interval| pair_of(iv)) =~= ranges);
    proof {
        assert forall|k: int| 0 <= k < segs@.len() implies is_canonical((#[trigger] segs@[k]).spec_start() as int) && is_canonical(segs@[k].spec_end()) by {
            assert(pair_of(segs@[k]) == ranges[k]);
            let n = kept_ranges(entries@, hhdm_offset).len();
            if 1 <= k < 1 + n {
                lemma_kept_ranges_fit(entries@, hhdm_offset, k - 1);
            }
        }
    }
    let mut vmm = VirtualMemoryManager::new(HIGHER_HALF_START, HIGHER_HALF_SIZE as usize);
    let mut k: usize = 0;
    while k < segs.len()
        invariant
            k <= segs@.len(),
            ranges == initial_ranges(recursive_index as int, entries@, hhdm_offset, heap_bottom, heap_size),
            segs@.map_values(|iv: Interval| pair_of(iv)) == ranges,
            forall|m: int| 0 <= m < segs@.len() ==> is_canonical((#[trigger] segs@[m]).spec_start() as int) && is_canonical(segs@[m].spec_end()),
            vmm.wf(),
            vmm.spec_mem_start() == HIGHER_HALF_START,
            vmm.spec_mem_size() == HIGHER_HALF_SIZE,
            forall|x: Interval| #[trigger] vmm@.contains(x) <==> segs@.take(k as int).contains(x),
            forall|i: int, j: int| 0 <= i < j < k ==> !ranges_overlap(#[trigger] ranges[i], #[trigger] ranges[j]),
        decreases segs@.len() - k,
    {
        let seg = segs[k];
        let ghost old_view = vmm@;
        assert(pair_of(seg) == ranges[k as int]);
        match VirtualMemoryHigherHalf::mark_as_reserved(&mut vmm, seg) {
            Ok(()) => {
                proof {
                    assert forall|j: int| 0 <= j < k implies !ranges_overlap(#[trigger] ranges[j], ranges[k as int]) by {
                        assert(pair_of(segs@[j]) == ranges[j]);
                        assert(segs@.take(k as int).contains(segs@[j])) by {
                            assert(segs@.take(k as int)[j] == segs@[j]);
                        }
                        assert(old_view.contains(segs@[j]));
                        let p = choose|p: int| 0 <= p < old_view.len() && old_view[p] == segs@[j];
                        lemma_first_overlap_none(old_view, 0, seg.spec_start() as int, seg.spec_size() as int, p);
                    }
                    let prefix = segs@.take(k as int);
                    assert(segs@.take(k + 1) =~= prefix.push(seg));
                    assert forall|x: Interval| #[trigger] vmm@.contains(x) <==> segs@.take(k + 1).contains(x) by {
                        assert(old_view.contains(x) <==> prefix.contains(x));
                        if prefix.contains(x) {
                            let j = choose|j: int| 0 <= j < prefix.len() && prefix[j] == x;
                            assert(prefix.push(seg)[j] == x);
                        }
                        if x == seg {
                            assert(prefix.push(seg)[k as int] == x);
                        }
                        if prefix.push(seg).contains(x) {
                            let j = choose|j: int| 0 <= j < prefix.len() + 1 && prefix.push(seg)[j] == x;
                            if j < prefix.len() {
                                assert(prefix[j] == x);
                            }
                        }
                    }
                }
            },
            Err(e) => {
                proof {
                    lemma_first_overlap_some(old_view, 0, seg.spec_start() as int, seg.spec_size() as int);
                    let p = first_overlap_from(old_view, 0, seg.spec_start() as int, seg.spec_size() as int)->0;
                    assert(old_view.contains(old_view[p]));
                    assert(segs@.take(k as int).contains(old_view[p]));
                    let j = choose|j: int| 0 <= j < k && segs@.take(k as int)[j] == old_view[p];
                    assert(segs@[j] == old_view[p]);
                    assert(pair_of(segs@[j]) == ranges[j]);
                    assert(ranges_overlap(ranges[j], ranges[k as int]));
                    assert(!ranges_disjoint(ranges));
                }
                return Err(e);
            },
        }
        k = k + 1;
    }
    proof {
        assert(segs@.take(k as int) =~= segs@);
        assert forall|x: Interval| #[trigger] vmm@.contains(x) <==> ranges.contains(pair_of(x)) by {
            if vmm@.contains(x) {
                let j = choose|j: int| 0 <= j < segs@.len() && segs@[j] == x;
                assert(ranges[j] == pair_of(x));
            }
            if ranges.contains(pair_of(x)) {
                let j = choose|j: int| 0 <= j < ranges.len() && ranges[j] == pair_of(x);
                assert(pair_of(segs@[j]) == ranges[j]);
                Interval::lemma_same_fields(segs@[j], x);
                assert(segs@.contains(x));
            }
        }
    }
    Ok(vmm)
}

/// The kept range at position `k` begins and ends at a canonical address and has the
/// size of its entry.
proof fn lemma_kept_ranges_fit(entries: Seq<MemoryMapEntry>, hhdm_offset: u64, k: int)
    requires
        0 <= k < kept_ranges(entries, hhdm_offset).len(),
        forall|i: int| 0 <= i < entries.len() && kept_in_higher_half(#[trigger] entries[i].entry_type) ==> {
            &&& is_canonical(entries[i].base + hhdm_offset)
            &&& is_canonical(entries[i].base + hhdm_offset + entries[i].length)
            &&& entries[i].length <= usize::MAX
        },
    ensures
        is_canonical(kept_ranges(entries, hhdm_offset)[k].0),
        is_canonical(kept_ranges(entries, hhdm_offset)[k].0 + kept_ranges(entries, hhdm_offset)[k].1),
    decreases entries.len(),
{
    let rest = entries.drop_last();
    let n = kept_ranges(rest, hhdm_offset).len();
    if k < n {
        assert forall|i: int| 0 <= i < rest.len() && kept_in_higher_half(#[trigger] rest[i].entry_type) implies {
            &&& is_canonical(rest[i].base + hhdm_offset)
            &&& is_canonical(rest[i].base + hhdm_offset + rest[i].length)
            &&& rest[i].length <= usize::MAX
        } by {
            assert(rest[i] == entries[i]);
        }
        lemma_kept_ranges_fit(rest, hhdm_offset, k);
    } else {
        assert(kept_in_higher_half(entries[entries.len() - 1].entry_type));
    }
}

} // verus!
