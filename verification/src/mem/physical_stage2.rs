//! The second-stage physical frame allocator: one state per frame of physical memory.
use vstd::prelude::*;
use crate::mem::addr::{is_valid_phys, phys_addr_new};
use crate::mem::frames::{addrs_between, covers, mark_frames, ranges_addrs};

verus! {

/// The kind of a region of the bootloader's memory map.
#[derive(Debug, Clone, Copy, PartialEq, Eq, Structural)]
pub enum MemoryRegionKind {
    Usable,
    Bootloader,
    UnknownUefi(u32),
    UnknownBios(u32),
}

/// A region `[start, end)` of the bootloader's memory map.
#[derive(Debug, Clone, Copy, PartialEq, Eq, Structural)]
pub struct MemoryRegion {
    pub start: u64,
    pub end: u64,
    pub kind: MemoryRegionKind,
}

/// The range of addresses that a region contributes to the usable memory.
pub open spec fn usable_range(r: MemoryRegion) -> (u64, u64) {
    if r.kind == MemoryRegionKind::Usable {
        (r.start, r.end)
    } else {
        (0, 0)
    }
}

/// The frame addresses of the usable regions, in memory map order.
pub open spec fn usable_addrs(regions: Seq<MemoryRegion>) -> Seq<int> {
    ranges_addrs(regions.map_values(|r: MemoryRegion| usable_range(r)))
}

/// The usable range of every region, in order.
fn usable_ranges(regions: &Vec<MemoryRegion>) -> (r: Vec<(u64, u64)>)
    ensures
        r@ == regions@.map_values(|r: MemoryRegion| usable_range(r)),
{
    let mut rs: Vec<(u64, u64)> = Vec::new();
    let mut i: usize = 0;
    while i < regions.len()
        invariant
            i <= regions.len(),
            rs@ == regions@.take(i as int).map_values(|r: MemoryRegion| usable_range(r)),
        decreases regions.len() - i,
    {
        let region = regions[i];
        if region.kind == MemoryRegionKind::Usable {
            rs.push((region.start, region.end));
        } else {
            rs.push((0, 0));
        }
        assert(regions@.take(i as int + 1).map_values(|r: MemoryRegion| usable_range(r)) =~= regions@.take(i as int).map_values(|r: MemoryRegion| usable_range(r)).push(usable_range(region)));
        i = i + 1;
    }
    assert(regions@.take(regions.len() as int) =~= regions@);
    rs
}

/// The total size of all regions.
pub open spec fn total_size(regions: Seq<MemoryRegion>) -> int
    decreases regions.len(),
{
    if regions.len() == 0 {
        0
    } else {
        total_size(regions.drop_last()) + (regions.last().end - regions.last().start)
    }
}

/// The state of a physical frame.
#[derive(Debug, Clone, Copy, PartialEq, Eq, Structural)]
pub enum FrameState {
    Free,
    Allocated,
    NotUsable,
}

/// The frame states built from the memory map: the frames that contain the first
/// `stage1` usable addresses are allocated, the other usable ones are free, and the rest
/// is not usable.
pub open spec fn initial_frames(regions: Seq<MemoryRegion>, stage1: int) -> Seq<FrameState> {
    let addrs = usable_addrs(regions);
    Seq::new(
        (total_size(regions) / 4096) as nat,
        |k: int|
            if covers(addrs_between(addrs, 0, stage1), k) {
                FrameState::Allocated
            } else if covers(addrs, k) {
                FrameState::Free
            } else {
                FrameState::NotUsable
            },
    )
}

/// The index of the first free frame at or after index `from`.
pub open spec fn first_free_from(frames: Seq<FrameState>, from: int) -> Option<int>
    decreases frames.len() - from,
{
    if from < 0 || from >= frames.len() {
        None
    } else if frames[from] == FrameState::Free {
        Some(from)
    } else {
        first_free_from(frames, from + 1)
    }
}

/// A frame allocator that keeps one state per physical frame and a hint where the
/// search for a free frame starts.
pub struct MemoryMapPhysicalFrameAllocator {
    frames: Vec<FrameState>,
    first_free: Option<usize>,
}

impl MemoryMapPhysicalFrameAllocator {
    pub closed spec fn spec_frames(&self) -> Seq<FrameState> {
        self.frames@
    }

    pub closed spec fn spec_first_free(&self) -> Option<usize> {
        self.first_free
    }

    /// Builds the frame states from the bootloader's memory map; the first
    /// `stage1_allocated_frames` usable frames were handed out before and stay allocated.
    pub fn from(regions: &Vec<MemoryRegion>, stage1_allocated_frames: usize) -> (r: Self)
        requires
            forall|i: int| 0 <= i < regions.len() ==> #[trigger] regions@[i].start <= regions@[i].end,
            total_size(regions@) <= u64::MAX,
            total_size(regions@) / 4096 <= usize::MAX,
            usable_addrs(regions@).len() < usize::MAX,
            forall|j: int| 0 <= j < usable_addrs(regions@).len() ==> #[trigger] usable_addrs(regions@)[j] / 4096 < total_size(regions@) / 4096,
        ensures
            r.spec_frames() == initial_frames(regions@, stage1_allocated_frames as int),
            r.spec_first_free() == Some(stage1_allocated_frames),
    {
        let ghost rs = regions@.map_values(|r: MemoryRegion| usable_range(r));
        let ghost addrs = usable_addrs(regions@);
        // the total size of the memory map
        let mut total: u64 = 0;
        let mut i: usize = 0;
        while i < regions.len()
            invariant
                i <= regions.len(),
                total == total_size(regions@.take(i as int)),
                forall|j: int| 0 <= j < regions.len() ==> #[trigger] regions@[j].start <= regions@[j].end,
                total_size(regions@) <= u64::MAX,
            decreases regions.len() - i,
        {
            proof {
                assert(regions@.take(i as int + 1).drop_last() =~= regions@.take(i as int));
                lemma_total_size_prefix(regions@, i as int + 1);
            }
            total = total + (regions[i].end - regions[i].start);
            i = i + 1;
        }
        assert(regions@.take(regions.len() as int) =~= regions@);
        let frame_count = (total / 4096) as usize;
        let mut frames: Vec<FrameState> = Vec::new();
        let mut k: usize = 0;
        while k < frame_count
            invariant
                k <= frame_count,
                frames@.len() == k,
                forall|c: int| 0 <= c < k ==> #[trigger] frames@[c] == FrameState::NotUsable,
            decreases frame_count - k,
        {
            frames.push(FrameState::NotUsable);
            k = k + 1;
        }
        let rs = usable_ranges(regions);
        mark_frames(&rs, &mut frames, 0, usize::MAX, FrameState::Free);
        mark_frames(&rs, &mut frames, 0, stage1_allocated_frames, FrameState::Allocated);
        proof {
            assert(addrs_between(addrs, 0, usize::MAX as int) =~= addrs);
            assert(frames@ =~= initial_frames(regions@, stage1_allocated_frames as int));
        }
        MemoryMapPhysicalFrameAllocator { frames, first_free: Some(stage1_allocated_frames) }
    }

    /// Finds the first free frame at or after `from`.
    fn find_free(&self, from: usize) -> (r: Option<usize>)
        ensures
            r == (match first_free_from(self.frames@, from as int) {
                Some(i) => Some(i as usize),
                None => None::<usize>,
            }),
            r matches Some(i) ==> i < self.frames@.len(),
    {
        let mut i = from;
        while i < self.frames.len()
            invariant
                from <= i,
                first_free_from(self.frames@, from as int) == first_free_from(self.frames@, i as int),
            decreases self.frames@.len() - i,
        {
            if self.frames[i] == FrameState::Free {
                return Some(i);
            }
            i = i + 1;
        }
        None
    }

    /// Allocates the first free frame at or after the hint and returns its start address;
    /// the hint moves to the next free frame.
    pub fn allocate_frame(&mut self) -> (r: Option<u64>)
        requires
            ({
                let from = match old(self).spec_first_free() { Some(f) => f as int, None => 0 };
                first_free_from(old(self).spec_frames(), from) matches Some(i) ==> is_valid_phys(i * 4096)
            }),
        ensures
            ({
                let from = match old(self).spec_first_free() { Some(f) => f as int, None => 0 };
                match first_free_from(old(self).spec_frames(), from) {
                    None => r is None && final(self).spec_frames() == old(self).spec_frames()
                        && final(self).spec_first_free() == old(self).spec_first_free(),
                    Some(i) => {
                        &&& r == Some((i * 4096) as u64)
                        &&& old(self).spec_frames()[i] == FrameState::Free
                        &&& final(self).spec_frames() == old(self).spec_frames().update(i, FrameState::Allocated)
                        &&& final(self).spec_first_free() == (match first_free_from(final(self).spec_frames(), i) {
                            Some(j) => Some(j as usize),
                            None => None::<usize>,
                        })
                    },
                }
            }),
    {
        let first_free = match self.first_free {
            Some(f) => f,
            None => 0,
        };
        let index = match self.find_free(first_free) {
            Some(i) => i,
            None => {
                return None;
            },
        };
        let flen = self.frames.len();
        proof {
            lemma_first_free_is_free(self.frames@, first_free as int);
            let from = match old(self).spec_first_free() { Some(f) => f as int, None => 0 };
            assert(from == first_free as int);
            assert(first_free_from(self.frames@, from)->0 == index as int);
        }
        self.frames.set(index, FrameState::Allocated);
        self.first_free = self.find_free(index);
        assert(index * 4096 <= u64::MAX);
        let addr = phys_addr_new((index as u64) * 4096);
        assert(addr == (index as int * 4096) as u64);
        Some(addr)
    }

    /// Marks the frame at `frame` as free; the hint moves down to it if it lies below.
    pub fn deallocate_frame(&mut self, frame: u64)
        requires
            frame / 4096 < old(self).spec_frames().len(),
        ensures
            final(self).spec_frames() == old(self).spec_frames().update(frame as int / 4096, FrameState::Free),
            final(self).spec_first_free() == (match old(self).spec_first_free() {
                Some(f) => if frame / 4096 < f { Some((frame / 4096) as usize) } else { Some(f) },
                None => Some((frame / 4096) as usize),
            }),
    {
        let flen = self.frames.len();
        let index = (frame / 4096) as usize;
        assert(index as int == frame as int / 4096);
        match self.first_free {
            Some(first_free) => {
                if index < first_free {
                    self.first_free = Some(index);
                }
            },
            None => {
                self.first_free = Some(index);
            },
        }
        self.frames.set(index, FrameState::Free);
    }
}

/// What the search for a free frame finds is a free frame at or after its start.
pub proof fn lemma_first_free_is_free(frames: Seq<FrameState>, from: int)
    requires
        first_free_from(frames, from) is Some,
    ensures
        from <= first_free_from(frames, from)->0 < frames.len(),
        frames[first_free_from(frames, from)->0] == FrameState::Free,
    decreases frames.len() - from,
{
    if 0 <= from < frames.len() && frames[from] != FrameState::Free {
        lemma_first_free_is_free(frames, from + 1);
    }
}

/// Freeing the frame that an allocation took restores the frame states.
pub proof fn lemma_deallocate_undoes_allocate(frames: Seq<FrameState>, i: int)
    requires
        0 <= i < frames.len(),
        frames[i] == FrameState::Free,
    ensures
        frames.update(i, FrameState::Allocated).update(i, FrameState::Free) == frames,
{
    assert(frames.update(i, FrameState::Allocated).update(i, FrameState::Free) =~= frames);
}

/// A frame, once handed out, is not handed out again by the next allocation, wherever
/// that one starts its search.
pub proof fn lemma_no_frame_twice(frames: Seq<FrameState>, from: int, next_from: int)
    requires
        first_free_from(frames, from) is Some,
    ensures
        ({
            let i = first_free_from(frames, from)->0;
            first_free_from(frames.update(i, FrameState::Allocated), next_from) != Some(i)
        }),
{
    let i = first_free_from(frames, from)->0;
    lemma_first_free_is_free(frames, from);
    let after = frames.update(i, FrameState::Allocated);
    if first_free_from(after, next_from) is Some {
        lemma_first_free_is_free(after, next_from);
    }
}

proof fn lemma_total_size_prefix(regions: Seq<MemoryRegion>, k: int)
    requires
        0 <= k <= regions.len(),
        forall|j: int| 0 <= j < regions.len() ==> #[trigger] regions[j].start <= regions[j].end,
    ensures
        total_size(regions.take(k)) <= total_size(regions),
    decreases regions.len() - k,
{
    if k < regions.len() {
        lemma_total_size_prefix(regions, k + 1);
        assert(regions.take(k + 1).drop_last() =~= regions.take(k));
    } else {
        assert(regions.take(k) =~= regions);
    }
}

} // verus!
