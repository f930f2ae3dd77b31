//! The first-stage frame allocator of the bootloader-handover variant: hands out the
//! usable frames of the memory map in order.
use vstd::prelude::*;
use crate::mem::addr::is_valid_phys;
use crate::mem::frames::{frame_start, lemma_ranges_addrs_within, nth_addr, ranges_addrs};
use crate::mem::phys::{containing_frame, entries_fit, EntryType, MemoryMapEntry};

verus! {

/// The address range of an entry, for usable entries only.
pub open spec fn entry_range(e: MemoryMapEntry) -> (u64, u64) {
    if e.entry_type == EntryType::Usable {
        (e.base, (e.base + e.length) as u64)
    } else {
        (0, 0)
    }
}

/// The ranges of all entries, in order.
pub open spec fn entry_ranges(entries: Seq<MemoryMapEntry>) -> Seq<(u64, u64)>
    decreases entries.len(),
{
    if entries.len() == 0 {
        Seq::empty()
    } else {
        entry_ranges(entries.drop_last()).push(entry_range(entries.last()))
    }
}

/// The addresses of the usable frames, in memory map order.
pub open spec fn usable_frame_addrs(entries: Seq<MemoryMapEntry>) -> Seq<int> {
    ranges_addrs(entry_ranges(entries))
}

/// There is one range per entry.
proof fn lemma_entry_ranges_len(entries: Seq<MemoryMapEntry>)
    ensures
        entry_ranges(entries).len() == entries.len(),
    decreases entries.len(),
{
    if entries.len() > 0 {
        lemma_entry_ranges_len(entries.drop_last());
    }
}

/// The range of the entry at each position, at the same position.
proof fn lemma_entry_ranges_index(entries: Seq<MemoryMapEntry>, i: int)
    requires
        0 <= i < entries.len(),
    ensures
        entry_ranges(entries)[i] == entry_range(entries[i]),
    decreases entries.len(),
{
    lemma_entry_ranges_len(entries.drop_last());
    if i < entries.len() - 1 {
        lemma_entry_ranges_index(entries.drop_last(), i);
        assert(entries.drop_last()[i] == entries[i]);
    }
}

/// The first stage hands out only memory of usable entries: every address it steps
/// through lies within the `length` bytes from the `base` of an entry of type `Usable`,
/// and the frame it returns for that address is the one that holds it.
pub proof fn lemma_usable_frame_addrs_in_usable(entries: Seq<MemoryMapEntry>)
    requires
        entries_fit(entries),
    ensures
        forall|j: int| 0 <= j < usable_frame_addrs(entries).len() ==> exists|i: int| {
            &&& 0 <= i < entries.len()
            &&& #[trigger] entries[i].entry_type == EntryType::Usable
            &&& entries[i].base <= #[trigger] usable_frame_addrs(entries)[j] < entries[i].base + entries[i].length
        },
{
    assert forall|j: int| 0 <= j < usable_frame_addrs(entries).len() implies exists|i: int| {
        &&& 0 <= i < entries.len()
        &&& #[trigger] entries[i].entry_type == EntryType::Usable
        &&& entries[i].base <= #[trigger] usable_frame_addrs(entries)[j] < entries[i].base + entries[i].length
    } by {
        let i = lemma_ranges_addrs_within(entry_ranges(entries), j);
        lemma_entry_ranges_len(entries);
        lemma_entry_ranges_index(entries, i);
        if entries[i].entry_type == EntryType::Usable {
            assert(entries[i].base + entries[i].length <= u64::MAX);
        }
    }
}

fn ranges_of(entries: &Vec<MemoryMapEntry>) -> (r: Vec<(u64, u64)>)
    requires
        entries_fit(entries@),
    ensures
        r@ == entry_ranges(entries@),
{
    let mut rs: Vec<(u64, u64)> = Vec::new();
    let mut i: usize = 0;
    while i < entries.len()
        invariant
            i <= entries.len(),
            entries_fit(entries@),
            rs@ == entry_ranges(entries@.take(i as int)),
        decreases entries.len() - i,
    {
        let e = entries[i];
        if e.entry_type == EntryType::Usable {
            assert(entries@[i as int].entry_type == EntryType::Usable);
            rs.push((e.base, e.base + e.length));
        } else {
            rs.push((0, 0));
        }
        assert(entries@.take(i as int + 1).drop_last() =~= entries@.take(i as int));
        i = i + 1;
    }
    assert(entries@.take(entries.len() as int) =~= entries@);
    rs
}

/// Hands out the usable frames of the memory map one after the other.
pub struct TrivialPhysicalFrameAllocator {
    regions: Vec<MemoryMapEntry>,
    next: usize,
}

impl TrivialPhysicalFrameAllocator {
    pub closed spec fn spec_regions(&self) -> Seq<MemoryMapEntry> {
        self.regions@
    }

    /// How many frames were asked for.
    pub closed spec fn spec_next(&self) -> usize {
        self.next
    }

    pub fn from(regions: Vec<MemoryMapEntry>) -> (r: Self)
        ensures
            r.spec_regions() == regions@,
            r.spec_next() == 0,
    {
        TrivialPhysicalFrameAllocator { regions, next: 0 }
    }

    /// How many frames were asked for.
    pub fn next(&self) -> (r: usize)
        ensures
            r == self.spec_next(),
    {
        self.next
    }

    /// Hands out the next usable frame, if there is one left; every call counts, also
    /// one that finds no frame.
    pub fn allocate_frame(&mut self) -> (r: Option<u64>)
        requires
            entries_fit(old(self).spec_regions()),
            old(self).spec_next() < usize::MAX,
            forall|j: int| 0 <= j <= old(self).spec_next() && j < usable_frame_addrs(old(self).spec_regions()).len()
                ==> is_valid_phys(#[trigger] usable_frame_addrs(old(self).spec_regions())[j]),
        ensures
            final(self).spec_regions() == old(self).spec_regions(),
            final(self).spec_next() == old(self).spec_next() + 1,
            ({
                let addrs = usable_frame_addrs(old(self).spec_regions());
                let n = old(self).spec_next();
                if n < addrs.len() {
                    r == Some(frame_start(addrs[n as int]) as u64)
                } else {
                    r is None
                }
            }),
    {
        let rs = ranges_of(&self.regions);
        let a = nth_addr(&rs, self.next);
        let r = match a {
            Some(addr) => {
                assert(is_valid_phys(usable_frame_addrs(self.regions@)[self.next as int]));
                Some(containing_frame(addr))
            },
            None => None,
        };
        self.next = self.next + 1;
        r
    }
}

} // verus!
