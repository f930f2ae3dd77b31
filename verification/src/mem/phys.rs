//! Physical memory during boot: the memory map handed over by the bootloader, the
//! first-stage bump allocator, and the frame states with which the second stage starts.
use vstd::prelude::*;
use crate::mem::addr::{is_valid_phys, phys_addr_new};
use crate::mem::frames::{addrs_between, covers, frame_start, lemma_ranges_addrs_within, mark_frames, nth_addr, ranges_addrs};

verus! {

/// The type of a memory map entry.
#[derive(Debug, Clone, Copy, PartialEq, Eq, Structural)]
pub enum EntryType {
    Usable,
    Reserved,
    AcpiReclaimable,
    AcpiNvs,
    BadMemory,
    BootloaderReclaimable,
    ExecutableAndModules,
    Framebuffer,
    Other(u64),
}

impl EntryType {
    /// The entry type for the bootloader's number.
    pub fn from_raw(raw: u64) -> (r: EntryType)
        ensures
            raw == 0 ==> r == EntryType::Usable,
            raw == 1 ==> r == EntryType::Reserved,
            raw == 2 ==> r == EntryType::AcpiReclaimable,
            raw == 3 ==> r == EntryType::AcpiNvs,
            raw == 4 ==> r == EntryType::BadMemory,
            raw == 5 ==> r == EntryType::BootloaderReclaimable,
            raw == 6 ==> r == EntryType::ExecutableAndModules,
            raw == 7 ==> r == EntryType::Framebuffer,
            raw > 7 ==> r == EntryType::Other(raw),
    {
        if raw == 0 {
            EntryType::Usable
        } else if raw == 1 {
            EntryType::Reserved
        } else if raw == 2 {
            EntryType::AcpiReclaimable
        } else if raw == 3 {
            EntryType::AcpiNvs
        } else if raw == 4 {
            EntryType::BadMemory
        } else if raw == 5 {
            EntryType::BootloaderReclaimable
        } else if raw == 6 {
            EntryType::ExecutableAndModules
        } else if raw == 7 {
            EntryType::Framebuffer
        } else {
            EntryType::Other(raw)
        }
    }
}

/// An entry of the bootloader's memory map: `length` bytes from `base` on.
#[derive(Debug, Clone, Copy, PartialEq, Eq, Structural)]
pub struct MemoryMapEntry {
    pub base: u64,
    pub length: u64,
    pub entry_type: EntryType,
}

/// No usable entry reaches beyond the end of the address space.
pub open spec fn entries_fit(entries: Seq<MemoryMapEntry>) -> bool {
    forall|i: int|
        0 <= i < entries.len() && #[trigger] entries[i].entry_type == EntryType::Usable
            ==> entries[i].base + entries[i].length <= u64::MAX
}

/// The range that the bump allocator steps through for an entry: its `length` bytes
/// from `base` on, for usable entries only.
pub open spec fn bump_range(e: MemoryMapEntry) -> (u64, u64) {
    if e.entry_type == EntryType::Usable {
        (e.base, (e.base + e.length) as u64)
    } else {
        (0, 0)
    }
}

/// The ranges of all entries, in order.
pub open spec fn bump_ranges_of(entries: Seq<MemoryMapEntry>) -> Seq<(u64, u64)>
    decreases entries.len(),
{
    if entries.len() == 0 {
        Seq::empty()
    } else {
        bump_ranges_of(entries.drop_last()).push(bump_range(entries.last()))
    }
}

/// The addresses of the frames that the bump allocator hands out, in order.
pub open spec fn bump_addrs(entries: Seq<MemoryMapEntry>) -> Seq<int> {
    ranges_addrs(bump_ranges_of(entries))
}

/// There is one range per entry.
proof fn lemma_bump_ranges_len(entries: Seq<MemoryMapEntry>)
    ensures
        bump_ranges_of(entries).len() == entries.len(),
    decreases entries.len(),
{
    if entries.len() > 0 {
        lemma_bump_ranges_len(entries.drop_last());
    }
}

/// The range of the entry at each position, at the same position.
proof fn lemma_bump_ranges_index(entries: Seq<MemoryMapEntry>, i: int)
    requires
        0 <= i < entries.len(),
    ensures
        bump_ranges_of(entries)[i] == bump_range(entries[i]),
    decreases entries.len(),
{
    lemma_bump_ranges_len(entries.drop_last());
    if i < entries.len() - 1 {
        lemma_bump_ranges_index(entries.drop_last(), i);
        assert(entries.drop_last()[i] == entries[i]);
    }
}

/// The bump allocator hands out only memory of usable entries: every address it steps
/// through lies within the `length` bytes from the `base` of an entry of type `Usable`,
/// and the frame it returns for that address is the one that holds it.
pub proof fn lemma_bump_addrs_in_usable(entries: Seq<MemoryMapEntry>)
    requires
        entries_fit(entries),
    ensures
        forall|j: int| 0 <= j < bump_addrs(entries).len() ==> exists|i: int| {
            &&& 0 <= i < entries.len()
            &&& #[trigger] entries[i].entry_type == EntryType::Usable
            &&& entries[i].base <= #[trigger] bump_addrs(entries)[j] < entries[i].base + entries[i].length
        },
{
    assert forall|j: int| 0 <= j < bump_addrs(entries).len() implies exists|i: int| {
        &&& 0 <= i < entries.len()
        &&& #[trigger] entries[i].entry_type == EntryType::Usable
        &&& entries[i].base <= #[trigger] bump_addrs(entries)[j] < entries[i].base + entries[i].length
    } by {
        let i = lemma_ranges_addrs_within(bump_ranges_of(entries), j);
        lemma_bump_ranges_len(entries);
        lemma_bump_ranges_index(entries, i);
        if entries[i].entry_type == EntryType::Usable {
            assert(entries[i].base + entries[i].length <= u64::MAX);
        }
    }
}

fn bump_ranges(entries: &Vec<MemoryMapEntry>) -> (r: Vec<(u64, u64)>)
    requires
        entries_fit(entries@),
    ensures
        r@ == bump_ranges_of(entries@),
{
    let mut rs: Vec<(u64, u64)> = Vec::new();
    let mut i: usize = 0;
    while i < entries.len()
        invariant
            i <= entries.len(),
            entries_fit(entries@),
            rs@ == bump_ranges_of(entries@.take(i as int)),
        decreases entries.len() - i,
    {
        let e = entries[i];
        if e.entry_type == EntryType::Usable {
            assert(entries@[i as int].entry_type == EntryType::Usable);
            rs.push((e.base, e.base + e.length));
        } else {
            rs.push((0, 0));
        }
        assert(entries@.take(i as int + 1).drop_last() =~= entries@.take(i as int));
        i = i + 1;
    }
    assert(entries@.take(entries.len() as int) =~= entries@);
    rs
}

/// The frame start address for `addr`.
pub fn containing_frame(addr: u64) -> (r: u64)
    requires
        is_valid_phys(addr as int),
    ensures
        r == frame_start(addr as int),
{
    let a = phys_addr_new(addr);
    a - a % 4096
}

/// The first-stage allocator: hands out the usable frames one after the other and
/// never takes one back.
pub struct PhysicalBumpAllocator {
    regions: Vec<MemoryMapEntry>,
    next_frame: usize,
}

impl PhysicalBumpAllocator {
    pub closed spec fn spec_regions(&self) -> Seq<MemoryMapEntry> {
        self.regions@
    }

    /// How many frames were handed out.
    pub closed spec fn spec_next_frame(&self) -> usize {
        self.next_frame
    }

    pub fn new(regions: Vec<MemoryMapEntry>) -> (r: Self)
        ensures
            r.spec_regions() == regions@,
            r.spec_next_frame() == 0,
    {
        PhysicalBumpAllocator { regions, next_frame: 0 }
    }

    /// How many frames were handed out.
    pub fn next_frame(&self) -> (r: usize)
        ensures
            r == self.spec_next_frame(),
    {
        self.next_frame
    }

    /// Hands out the next usable frame, if there is one left.
    pub fn allocate_frame(&mut self) -> (r: Option<u64>)
        requires
            entries_fit(old(self).spec_regions()),
            forall|j: int| 0 <= j <= old(self).spec_next_frame() && j < bump_addrs(old(self).spec_regions()).len()
                ==> is_valid_phys(#[trigger] bump_addrs(old(self).spec_regions())[j]),
            old(self).spec_next_frame() < bump_addrs(old(self).spec_regions()).len() ==> old(self).spec_next_frame() < usize::MAX,
        ensures
            final(self).spec_regions() == old(self).spec_regions(),
            ({
                let addrs = bump_addrs(old(self).spec_regions());
                let n = old(self).spec_next_frame();
                if n < addrs.len() {
                    &&& r == Some(frame_start(addrs[n as int]) as u64)
                    &&& final(self).spec_next_frame() == n + 1
                } else {
                    &&& r is None
                    &&& final(self).spec_next_frame() == n
                }
            }),
    {
        let rs = bump_ranges(&self.regions);
        let a = nth_addr(&rs, self.next_frame);
        match a {
            Some(addr) => {
                assert(is_valid_phys(bump_addrs(self.regions@)[self.next_frame as int]));
                let frame = containing_frame(addr);
                assert(self.next_frame < bump_addrs(self.regions@).len());
                self.next_frame = self.next_frame + 1;
                Some(frame)
            },
            None => None,
        }
    }
}

/// The state of a frame in the second-stage allocator.
#[derive(Debug, Clone, Copy, PartialEq, Eq, Structural)]
pub enum FrameState {
    Unusable,
    Allocated,
    Free,
}

/// The last usable entry, if any.
pub open spec fn last_usable(entries: Seq<MemoryMapEntry>) -> Option<MemoryMapEntry>
    decreases entries.len(),
{
    if entries.len() == 0 {
        None
    } else if entries.last().entry_type == EntryType::Usable {
        Some(entries.last())
    } else {
        last_usable(entries.drop_last())
    }
}

/// The frame states with which the second stage starts: one per frame below the end of
/// the last usable entry; the frames that the first stage handed out are allocated, the
/// other frames it would have handed out are free, and the rest is unusable.
pub open spec fn stage2_frames(entries: Seq<MemoryMapEntry>, next_frame: int) -> Seq<FrameState> {
    let addrs = bump_addrs(entries);
    let highest = last_usable(entries)->0.base + last_usable(entries)->0.length;
    Seq::new(
        (highest / 4096) as nat,
        |k: int|
            if covers(addrs_between(addrs, next_frame, usize::MAX as int), k) {
                FrameState::Free
            } else if covers(addrs_between(addrs, 0, next_frame), k) {
                FrameState::Allocated
            } else {
                FrameState::Unusable
            },
    )
}

/// Builds the frame states for the second stage from the first-stage allocator.
pub fn build_stage2_frames(stage1: &PhysicalBumpAllocator) -> (r: Vec<FrameState>)
    requires
        entries_fit(stage1.spec_regions()),
        last_usable(stage1.spec_regions()) is Some,
        ({
            let e = last_usable(stage1.spec_regions())->0;
            e.base + e.length <= u64::MAX && (e.base + e.length) / 4096 <= usize::MAX
        }),
        ({
            let e = last_usable(stage1.spec_regions())->0;
            forall|j: int| 0 <= j < bump_addrs(stage1.spec_regions()).len()
                ==> #[trigger] bump_addrs(stage1.spec_regions())[j] / 4096 < (e.base + e.length) / 4096
        }),
    ensures
        r@ == stage2_frames(stage1.spec_regions(), stage1.spec_next_frame() as int),
{
    let ghost entries = stage1.regions@;
    let mut i = stage1.regions.len();
    let mut last: Option<MemoryMapEntry> = None;
    assert(entries.take(i as int) =~= entries);
    while i > 0
        invariant
            i <= entries.len(),
            entries == stage1.regions@,
            last is None ==> last_usable(entries) == last_usable(entries.take(i as int)),
            last is Some ==> last_usable(entries) == last,
        decreases i,
    {
        if last.is_none() {
            let e = stage1.regions[i - 1];
            proof {
                assert(entries.take(i as int).drop_last() =~= entries.take(i as int - 1));
                assert(entries.take(i as int).last() == e);
            }
            if e.entry_type == EntryType::Usable {
                last = Some(e);
            }
        }
        i = i - 1;
    }
    proof {
        if last is None {
            assert(entries.take(0) =~= Seq::<MemoryMapEntry>::empty());
        }
    }
    let e = last.unwrap();
    let highest = e.base + e.length;
    let count = (highest / 4096) as usize;
    assert(count == (e.base + e.length) / 4096);
    let mut frames: Vec<FrameState> = Vec::new();
    let mut k: usize = 0;
    while k < count
        invariant
            k <= count,
            frames@.len() == k,
            forall|c: int| 0 <= c < k ==> #[trigger] frames@[c] == FrameState::Unusable,
        decreases count - k,
    {
        frames.push(FrameState::Unusable);
        k = k + 1;
    }
    let rs = bump_ranges(&stage1.regions);
    assert(e == last_usable(entries)->0);
    assert(frames@.len() == (e.base + e.length) / 4096);
    assert(ranges_addrs(rs@) == bump_addrs(entries));
    mark_frames(&rs, &mut frames, 0, stage1.next_frame, FrameState::Allocated);
    mark_frames(&rs, &mut frames, stage1.next_frame, usize::MAX, FrameState::Free);
    assert(frames@ =~= stage2_frames(entries, stage1.next_frame as int));
    frames
}

/// The entries of the given type, in their order.
pub open spec fn entries_of_type(entries: Seq<MemoryMapEntry>, ty: EntryType) -> Seq<MemoryMapEntry>
    decreases entries.len(),
{
    if entries.len() == 0 {
        Seq::empty()
    } else {
        let rest = entries_of_type(entries.drop_last(), ty);
        if entries.last().entry_type == ty {
            rest.push(entries.last())
        } else {
            rest
        }
    }
}

/// The entries of the memory map with the given type, in their order.
pub fn filter_entries(entries: &Vec<MemoryMapEntry>, ty: EntryType) -> (r: Vec<MemoryMapEntry>)
    ensures
        r@ == entries_of_type(entries@, ty),
{
    let mut r: Vec<MemoryMapEntry> = Vec::new();
    let mut i: usize = 0;
    while i < entries.len()
        invariant
            i <= entries.len(),
            r@ == entries_of_type(entries@.take(i as int), ty),
        decreases entries.len() - i,
    {
        proof {
            assert(entries@.take(i + 1).drop_last() =~= entries@.take(i as int));
        }
        if entries[i].entry_type == ty {
            r.push(entries[i]);
        }
        i = i + 1;
    }
    proof {
        assert(entries@.take(i as int) =~= entries@);
    }
    r
}

/// The length of the region that holds the kernel executable and its modules, if the
/// memory map has exactly one such region.
pub fn executable_region_length(entries: &Vec<MemoryMapEntry>) -> (r: Option<u64>)
    ensures
        match r {
            Some(len) => entries_of_type(entries@, EntryType::ExecutableAndModules).len() == 1
                && len == entries_of_type(entries@, EntryType::ExecutableAndModules)[0].length,
            None => entries_of_type(entries@, EntryType::ExecutableAndModules).len() != 1,
        },
{
    let regions = filter_entries(entries, EntryType::ExecutableAndModules);
    if regions.len() == 1 {
        Some(regions[0].length)
    } else {
        None
    }
}

/// The total length of the usable entries.
pub open spec fn usable_total(entries: Seq<MemoryMapEntry>) -> int
    decreases entries.len(),
{
    if entries.len() == 0 {
        0
    } else {
        usable_total(entries.drop_last()) + if entries.last().entry_type == EntryType::Usable {
            entries.last().length as int
        } else {
            0
        }
    }
}

/// The usable totals of the prefixes of the entries never exceed the whole.
proof fn lemma_usable_total_prefix(entries: Seq<MemoryMapEntry>, k: int)
    requires
        0 <= k <= entries.len(),
    ensures
        0 <= usable_total(entries.take(k)) <= usable_total(entries),
    decreases entries.len() - k,
{
    if k < entries.len() {
        lemma_usable_total_prefix(entries, k + 1);
        assert(entries.take(k + 1).drop_last() =~= entries.take(k));
        lemma_usable_total_nonneg(entries.take(k));
    } else {
        assert(entries.take(k) =~= entries);
        lemma_usable_total_nonneg(entries);
    }
}

proof fn lemma_usable_total_nonneg(entries: Seq<MemoryMapEntry>)
    ensures
        usable_total(entries) >= 0,
    decreases entries.len(),
{
    if entries.len() > 0 {
        lemma_usable_total_nonneg(entries.drop_last());
    }
}

/// How much memory the usable entries of the memory map hold, in bytes.
pub fn usable_memory(entries: &Vec<MemoryMapEntry>) -> (r: u64)
    requires
        usable_total(entries@) <= u64::MAX,
    ensures
        r == usable_total(entries@),
{
    let mut sum: u64 = 0;
    let mut i: usize = 0;
    while i < entries.len()
        invariant
            i <= entries.len(),
            usable_total(entries@) <= u64::MAX,
            sum == usable_total(entries@.take(i as int)),
        decreases entries.len() - i,
    {
        proof {
            assert(entries@.take(i + 1).drop_last() =~= entries@.take(i as int));
            lemma_usable_total_prefix(entries@, i + 1);
        }
        if entries[i].entry_type == EntryType::Usable {
            sum = sum + entries[i].length;
        }
        i = i + 1;
    }
    proof {
        assert(entries@.take(i as int) =~= entries@);
    }
    sum
}

} // verus!
