//! Creating a memory-backed virtual memory object: reserving its interval, and taking
//! the frames behind it now, later, or as handed over.
use vstd::prelude::*;
use crate::mem::addr::is_canonical;
use crate::mem::paging::{PRESENT, WRITABLE};
use crate::mem::pm_object::frames_for;
use crate::mem::manager::{allocate_phys_frames, frames_outcome, Allocator, MemoryManager};
use crate::mem::virt::manager::{align_up, first_fit, first_overlap_from, visits_canonical, Interval, MapAt, OwnedInterval, VirtualMemoryManager, VmmError};

verus! {

/// When the frames behind a new object are taken.
#[derive(Debug)]
pub enum AllocationStrategy {
    /// One by one, as pages are touched.
    AllocateOnAccess,
    /// All at once, when the object is created.
    AllocateNow,
    /// These frames, which someone else owns.
    MapNow(Vec<u64>),
}

/// A memory-backed object, ready to be mapped: its interval, its frames, whether its
/// pages are mapped and zeroed right away, and whether its frames go back to the
/// physical memory manager when it goes away.
#[derive(Debug)]
pub struct MemoryBackedVmo {
    pub interval: OwnedInterval,
    pub frames: Vec<u64>,
    pub should_map: bool,
    pub should_zero: bool,
    pub owns_frames: bool,
}

/// The requirements of `resolve_map_at` on the manager for `addr` and `size`.
pub open spec fn map_at_ok(vmm: VirtualMemoryManager, addr: MapAt, size: usize) -> bool {
    &&& vmm.wf()
    &&& match addr {
        MapAt::Fixed(a) => is_canonical(a as int) && is_canonical(a + size),
        MapAt::Anywhere => {
            &&& align_up(size as int) <= usize::MAX
            &&& is_canonical(vmm.spec_mem_start() + vmm.spec_mem_size())
            &&& visits_canonical(vmm@, vmm.spec_mem_start() as int, align_up(size as int))
            &&& is_canonical(first_fit(vmm@, vmm.spec_mem_start() as int, align_up(size as int)) + align_up(size as int))
        },
    }
}

/// The interval that `resolve_map_at` reserves for `addr` and `size` in `ivs`, or the
/// error it answers with.
pub open spec fn resolved(vmm: VirtualMemoryManager, addr: MapAt, size: usize) -> Result<(int, int), VmmError> {
    match addr {
        MapAt::Fixed(a) => match first_overlap_from(vmm@, 0, a as int, size as int) {
            Some(_) => Err(VmmError::AlreadyAllocated),
            None => Ok((a as int, size as int)),
        },
        MapAt::Anywhere => {
            let sz = align_up(size as int);
            let s = first_fit(vmm@, vmm.spec_mem_start() as int, sz);
            if s + sz > vmm.spec_mem_start() + vmm.spec_mem_size() {
                Err(VmmError::OutOfMemory)
            } else {
                Ok((s, sz))
            }
        },
    }
}

/// Reserves the interval of a new memory-backed object in `vmm` (at `addr` or anywhere)
/// and takes its frames as `strategy` says: none yet, `size` bytes' worth from `mm`
/// now, or the frames handed over. If frames taken now run out, those taken are given
/// back, the interval is released again and the answer is `OutOfMemory`.
pub fn create_memory_backed_vmo(
    vmm: &mut VirtualMemoryManager,
    mm: &mut MemoryManager,
    addr: MapAt,
    size: usize,
    strategy: AllocationStrategy,
) -> (r: Result<MemoryBackedVmo, VmmError>)
    requires
        map_at_ok(*old(vmm), addr, size),
        old(mm).wf(),
        old(mm).spec_alloc() matches Allocator::Stage1(a) ==> a.spec_next() + frames_for(size as int) < usize::MAX,
    ensures
        final(vmm).wf(),
        final(mm).wf(),
        match resolved(*old(vmm), addr, size) {
            Err(e) => r == Err::<MemoryBackedVmo, VmmError>(e) && final(vmm)@ == old(vmm)@ && *final(mm) == *old(mm),
            Ok((start, len)) => match strategy {
                AllocationStrategy::AllocateOnAccess => {
                    &&& *final(mm) == *old(mm)
                    &&& r matches Ok(v) && v.interval@.spec_start() == start && v.interval@.spec_size() == len
                        && v.frames@ == Seq::<u64>::empty() && !v.should_map && !v.should_zero && v.owns_frames
                        && forall|x: Interval| #[trigger] final(vmm)@.contains(x) <==> (old(vmm)@.contains(x) || x == v.interval@)
                },
                AllocationStrategy::MapNow(fs) => {
                    &&& *final(mm) == *old(mm)
                    &&& r matches Ok(v) && v.interval@.spec_start() == start && v.interval@.spec_size() == len
                        && v.frames@ == fs@ && v.should_map && !v.should_zero && !v.owns_frames
                        && forall|x: Interval| #[trigger] final(vmm)@.contains(x) <==> (old(vmm)@.contains(x) || x == v.interval@)
                },
                AllocationStrategy::AllocateNow => {
                    &&& frames_outcome(*old(mm), *final(mm), frames_for(size as int), match r {
                        Ok(v) => Some(v.frames@),
                        Err(_) => None,
                    })
                    &&& r matches Ok(v) ==> v.interval@.spec_start() == start && v.interval@.spec_size() == len
                        && v.should_map && v.should_zero && v.owns_frames
                        && forall|x: Interval| #[trigger] final(vmm)@.contains(x) <==> (old(vmm)@.contains(x) || x == v.interval@)
                    &&& r matches Err(e) ==> e == VmmError::OutOfMemory
                        && forall|x: Interval| x.spec_start() != start || x.spec_size() != len ==> (#[trigger] final(vmm)@.contains(x) <==> old(vmm)@.contains(x))
                },
            },
        },
{
    let interval = match vmm.resolve_map_at(addr, size) {
        Ok(i) => i,
        Err(e) => return Err(e),
    };
    match strategy {
        AllocationStrategy::AllocateOnAccess => Ok(MemoryBackedVmo {
            interval,
            frames: Vec::new(),
            should_map: false,
            should_zero: false,
            owns_frames: true,
        }),
        AllocationStrategy::MapNow(frames) => Ok(MemoryBackedVmo {
            interval,
            frames,
            should_map: true,
            should_zero: false,
            owns_frames: false,
        }),
        AllocationStrategy::AllocateNow => {
            let num_frames = if size % 4096 == 0 {
                size / 4096
            } else {
                size / 4096 + 1
            };
            match allocate_phys_frames(mm, num_frames) {
                Ok(frames) => Ok(MemoryBackedVmo { interval, frames, should_map: true, should_zero: true, owns_frames: true }),
                Err(e) => {
                    let ghost mid = vmm@;
                    let reserved = interval.leak();
                    let _ = vmm.release(reserved);
                    Err(e)
                },
            }
        },
    }
}

/// The pages from the one that holds `addr` up to, not including, the one that holds
/// `addr + size`, paired in order with `frames`, as far as both reach.
pub fn page_frame_pairs(addr: u64, size: usize, frames: &Vec<u64>) -> (r: Vec<(u64, u64)>)
    requires
        addr + size <= u64::MAX,
    ensures
        ({
            let first = addr - addr % 4096;
            let end = (addr + size) - (addr + size) % 4096;
            let pages = (end - first) / 4096;
            &&& r@.len() == if pages < frames@.len() { pages } else { frames@.len() as int }
            &&& forall|k: int| 0 <= k < r@.len() ==> #[trigger] r@[k] == ((first + 4096 * k) as u64, frames@[k])
        }),
{
    let first = addr - addr % 4096;
    let last_addr = addr + size as u64;
    let end = last_addr - last_addr % 4096;
    let mut r: Vec<(u64, u64)> = Vec::new();
    let mut page = first;
    let mut k: usize = 0;
    while page < end && k < frames.len()
        invariant
            first == addr - addr % 4096,
            end == (addr + size) - (addr + size) % 4096,
            first <= end,
            (end - first) % 4096 == 0,
            page == first + 4096 * k,
            page <= end,
            k <= frames@.len(),
            r@.len() == k,
            forall|j: int| 0 <= j < k ==> #[trigger] r@[j] == ((first + 4096 * j) as u64, frames@[j]),
        decreases frames@.len() - k,
    {
        r.push((page, frames[k]));
        page = page + 4096;
        k = k + 1;
    }
    proof {
        let pages = (end - first) / 4096;
        assert(end - first == 4096 * pages);
        if page >= end {
            assert(k >= pages) by (nonlinear_arith)
                requires
                    page == first + 4096 * k,
                    page >= end,
                    end - first == 4096 * pages;
            assert(k <= pages) by (nonlinear_arith)
                requires
                    page == first + 4096 * k,
                    page <= end,
                    end - first == 4096 * pages;
        } else {
            assert(k < pages) by (nonlinear_arith)
                requires
                    page == first + 4096 * k,
                    page < end,
                    end - first == 4096 * pages;
        }
    }
    r
}

/// Why a page could not be mapped.
#[derive(Debug, Clone, Copy, PartialEq, Eq, Structural)]
pub enum MapError {
    /// A frame for a page table could not be allocated.
    FrameAllocationFailed,
    /// A parent entry maps a huge page.
    ParentEntryHugePage,
    /// The page is mapped already.
    PageAlreadyMapped,
}

/// The error of the virtual memory manager for a failed mapping: out of memory if a page
/// table frame was missing, already allocated otherwise.
pub fn map_error_to_vmm(e: MapError) -> (r: VmmError)
    ensures
        r == (if e == MapError::FrameAllocationFailed {
            VmmError::OutOfMemory
        } else {
            VmmError::AlreadyAllocated
        }),
{
    match e {
        MapError::FrameAllocationFailed => VmmError::OutOfMemory,
        MapError::ParentEntryHugePage | MapError::PageAlreadyMapped => VmmError::AlreadyAllocated,
    }
}

/// How a page touched for the first time is mapped before it is filled: with the object's
/// flags if they allow writing; otherwise present and writable, to be mapped again with
/// the object's flags once filled (the second value).
pub fn first_access_flags(flags: u64) -> (r: (u64, bool))
    ensures
        r == (if flags & WRITABLE != 0 {
            (flags, false)
        } else {
            (PRESENT | WRITABLE, true)
        }),
{
    if flags & WRITABLE != 0 {
        (flags, false)
    } else {
        (PRESENT | WRITABLE, true)
    }
}

/// The first and the last page of an object of `size` bytes at `addr`, both included.
pub fn object_pages(addr: u64, size: usize) -> (r: (u64, u64))
    requires
        size > 0,
        addr + size <= u64::MAX,
    ensures
        r.0 == addr - addr % 4096,
        r.1 == (addr + size - 1) - (addr + size - 1) % 4096,
{
    let last = addr + (size as u64 - 1);
    (addr - addr % 4096, last - last % 4096)
}

} // verus!
