//! Allocations of the lower half for a process: how many pages an allocation takes,
//! which segment a fixed allocation reserves, which part of it is mapped, and the page
//! flags of writable, executable and read-only allocations.
use vstd::prelude::*;
use crate::mem::addr::is_canonical;
use crate::mem::paging::{NO_EXECUTE, PRESENT, USER_ACCESSIBLE, WRITABLE};
use crate::mem::virt::manager::{align_up, first_fit, first_overlap_from, visits_canonical, Interval, OwnedInterval, VirtualMemoryManager};

verus! {

/// Where an allocation goes: anywhere, or at a fixed address.
#[derive(Debug, Clone, Copy, PartialEq, Eq, Structural)]
pub enum Location {
    Anywhere,
    Fixed(u64),
}

/// Whether user space may access an allocation.
#[derive(Debug, Clone, Copy, PartialEq, Eq, Structural)]
pub enum UserAccessible {
    Yes,
    No,
}

/// Whether an allocation has an unmapped guard page on either side.
#[derive(Debug, Clone, Copy, PartialEq, Eq, Structural)]
pub enum Guarded {
    Yes,
    No,
}

/// What may be done with the memory of an allocation.
pub trait AllocationType {}

/// An allocation that may only be read.
#[derive(Debug, Clone, Copy, PartialEq, Eq, Structural)]
pub struct Readonly;

/// An allocation that may be read and written.
#[derive(Debug, Clone, Copy, PartialEq, Eq, Structural)]
pub struct Writable;

/// An allocation that may be read and executed.
#[derive(Debug, Clone, Copy, PartialEq, Eq, Structural)]
pub struct Executable;

impl AllocationType for Readonly {}

impl AllocationType for Writable {}

impl AllocationType for Executable {}

/// The bytes that the guard pages add on each side.
pub open spec fn guard_bytes(g: Guarded) -> int {
    match g {
        Guarded::Yes => 4096,
        Guarded::No => 0,
    }
}

/// The number of 4 KiB pages that an allocation of `size` bytes reserves, guard pages
/// included.
pub open spec fn pages_for(size: int, g: Guarded) -> int {
    (size + 4095) / 4096 + 2 * guard_bytes(g) / 4096
}

/// The number of pages to reserve for `size` bytes.
pub fn allocation_pages(size: usize, guarded: Guarded) -> (r: usize)
    requires
        pages_for(size as int, guarded) <= usize::MAX,
    ensures
        r == pages_for(size as int, guarded),
{
    let whole = size / 4096;
    let pages = if size % 4096 == 0 {
        whole
    } else {
        whole + 1
    };
    let guards: usize = match guarded {
        Guarded::Yes => 2,
        Guarded::No => 0,
    };
    pages + guards
}

/// `x` rounded down to a multiple of 4096.
pub open spec fn page_down(x: int) -> int {
    x - x % 4096
}

/// `x` rounded up to a multiple of 4096.
pub open spec fn page_up(x: int) -> int {
    if x % 4096 == 0 {
        x
    } else {
        x - x % 4096 + 4096
    }
}

/// The segment that a fixed allocation of `size` bytes at `addr` reserves: from the page
/// that holds `addr` to the end of the page that holds its last byte, widened by the
/// guard pages; as its start and its length.
pub open spec fn fixed_segment_of(addr: int, size: int, g: Guarded) -> (int, int) {
    let start = page_down(addr) - guard_bytes(g);
    let end = page_up(addr + size) + guard_bytes(g);
    (start, end - start)
}

/// A fixed segment can be computed without leaving the canonical addresses.
pub open spec fn fixed_segment_ok(addr: int, size: int, g: Guarded) -> bool {
    &&& is_canonical(addr)
    &&& is_canonical(addr + size)
    &&& is_canonical(page_down(addr))
    &&& is_canonical(page_down(addr) - guard_bytes(g))
    &&& is_canonical(page_up(addr + size))
    &&& is_canonical(page_up(addr + size) + guard_bytes(g))
}

/// The segment to reserve for a fixed allocation.
pub fn fixed_segment(addr: u64, size: usize, guarded: Guarded) -> (r: (u64, u64))
    requires
        fixed_segment_ok(addr as int, size as int, guarded),
    ensures
        r.0 == fixed_segment_of(addr as int, size as int, guarded).0,
        r.1 == fixed_segment_of(addr as int, size as int, guarded).1,
{
    let g: u64 = match guarded {
        Guarded::Yes => 4096,
        Guarded::No => 0,
    };
    let start = addr - addr % 4096 - g;
    let last = addr + size as u64;
    let up = if last % 4096 == 0 {
        last
    } else {
        last - last % 4096 + 4096
    };
    let end = up + g;
    (start, end - start)
}

/// The part of a reserved segment that is mapped: without the guard pages.
pub fn mapped_segment(start: u64, len: u64, guarded: Guarded) -> (r: (u64, u64))
    requires
        guarded == Guarded::Yes ==> len >= 8192 && is_canonical(start + 4096),
    ensures
        r == (match guarded {
            Guarded::Yes => ((start + 4096) as u64, (len - 8192) as u64),
            Guarded::No => (start, len),
        }),
{
    match guarded {
        Guarded::Yes => (start + 4096, len - 8192),
        Guarded::No => (start, len),
    }
}

/// The flags with which a new allocation is mapped: present, writable, not executable,
/// and accessible from user space if asked for.
pub fn allocation_flags(user_accessible: UserAccessible) -> (r: u64)
    ensures
        r == (PRESENT | WRITABLE | NO_EXECUTE | if user_accessible == UserAccessible::Yes {
            USER_ACCESSIBLE
        } else {
            0
        }),
{
    PRESENT | WRITABLE | NO_EXECUTE | match user_accessible {
        UserAccessible::Yes => USER_ACCESSIBLE,
        UserAccessible::No => 0,
    }
}

/// The flags of a page made executable: not writable, and executable.
pub fn executable_flags(flags: u64) -> (r: u64)
    ensures
        r == flags & !(WRITABLE | NO_EXECUTE),
{
    flags & !(WRITABLE | NO_EXECUTE)
}

/// The flags of a page made writable again: writable, and not executable.
pub fn writable_flags(flags: u64) -> (r: u64)
    ensures
        r == flags | WRITABLE | NO_EXECUTE,
{
    flags | WRITABLE | NO_EXECUTE
}

/// The flags of a page made read-only: not writable, and not executable.
pub fn readonly_flags(flags: u64) -> (r: u64)
    ensures
        r == (flags & !WRITABLE) | NO_EXECUTE,
{
    (flags & !WRITABLE) | NO_EXECUTE
}

/// The flags of a new allocation.
pub open spec fn flags_for(user_accessible: UserAccessible) -> u64 {
    PRESENT | WRITABLE | NO_EXECUTE | if user_accessible == UserAccessible::Yes {
        USER_ACCESSIBLE
    } else {
        0
    }
}

/// The mapped part of a segment of `len` bytes at `start`: without the guard pages.
pub open spec fn mapped_of(start: int, len: int, g: Guarded) -> (int, int) {
    match g {
        Guarded::Yes => (start + 4096, len - 8192),
        Guarded::No => (start, len),
    }
}

/// A lower-half allocation, ready to be mapped: the address handed to the caller, the
/// number of bytes requested, the reserved segment, the part of it that is mapped, and
/// the flags it is mapped with.
#[derive(Debug)]
pub struct AllocationPlan {
    pub start: u64,
    pub size: usize,
    pub segment: OwnedInterval,
    pub mapped_start: u64,
    pub mapped_len: u64,
    pub flags: u64,
}

/// What `plan_allocation` needs of the manager and the request.
pub open spec fn plan_ok(vmm: VirtualMemoryManager, location: Location, size: usize, guarded: Guarded) -> bool {
    &&& vmm.wf()
    &&& match location {
        Location::Anywhere => {
            let sz = pages_for(size as int, guarded) * 4096;
            &&& sz <= usize::MAX
            &&& is_canonical(vmm.spec_mem_start() + vmm.spec_mem_size())
            &&& visits_canonical(vmm@, vmm.spec_mem_start() as int, sz)
            &&& is_canonical(first_fit(vmm@, vmm.spec_mem_start() as int, sz) + sz)
            &&& guarded == Guarded::Yes ==> is_canonical(first_fit(vmm@, vmm.spec_mem_start() as int, sz) + 4096)
        },
        Location::Fixed(v) => {
            &&& fixed_segment_ok(v as int, size as int, guarded)
            &&& fixed_segment_of(v as int, size as int, guarded).1 <= usize::MAX
            &&& guarded == Guarded::Yes ==> is_canonical(fixed_segment_of(v as int, size as int, guarded).0 + 4096)
        },
    }
}

/// Reserves the segment of a new lower-half allocation of `size` bytes in `vmm` and
/// works out what to map: anywhere, the pages it takes (guard pages included) at the
/// lowest place where they fit; at a fixed address, the pages from the one that holds it
/// to the one that holds its last byte, widened by the guard pages, unless that overlaps
/// a reserved segment. `None` if the segment cannot be had.
pub fn plan_allocation(
    vmm: &mut VirtualMemoryManager,
    location: Location,
    size: usize,
    user_accessible: UserAccessible,
    guarded: Guarded,
) -> (r: Option<AllocationPlan>)
    requires
        plan_ok(*old(vmm), location, size, guarded),
    ensures
        final(vmm).wf(),
        match location {
            Location::Anywhere => {
                let sz = pages_for(size as int, guarded) * 4096;
                let s = first_fit(old(vmm)@, old(vmm).spec_mem_start() as int, sz);
                if s + sz > old(vmm).spec_mem_start() + old(vmm).spec_mem_size() {
                    r is None && final(vmm)@ == old(vmm)@
                } else {
                    r matches Some(p) && p.segment@.spec_start() == s && p.segment@.spec_size() == sz
                        && p.mapped_start == mapped_of(s, sz, guarded).0 && p.mapped_len == mapped_of(s, sz, guarded).1
                        && p.start == p.mapped_start && p.size == size && p.flags == flags_for(user_accessible)
                        && forall|x: Interval| #[trigger] final(vmm)@.contains(x) <==> (old(vmm)@.contains(x) || x == p.segment@)
                }
            },
            Location::Fixed(v) => {
                let (fs, fl) = fixed_segment_of(v as int, size as int, guarded);
                match first_overlap_from(old(vmm)@, 0, fs, fl) {
                    Some(_) => r is None && final(vmm)@ == old(vmm)@,
                    None => r matches Some(p) && p.segment@.spec_start() == fs && p.segment@.spec_size() == fl
                        && p.mapped_start == mapped_of(fs, fl, guarded).0 && p.mapped_len == mapped_of(fs, fl, guarded).1
                        && p.start == v && p.size == size && p.flags == flags_for(user_accessible)
                        && forall|x: Interval| #[trigger] final(vmm)@.contains(x) <==> (old(vmm)@.contains(x) || x == p.segment@),
                }
            },
        },
{
    let num_pages = allocation_pages(size, guarded);
    let (start, segment) = match location {
        Location::Anywhere => {
            proof {
                let sz = pages_for(size as int, guarded) * 4096;
                assert(align_up(sz) == sz) by (nonlinear_arith)
                    requires sz == pages_for(size as int, guarded) * 4096, pages_for(size as int, guarded) >= 0;
            }
            match vmm.reserve(num_pages * 4096) {
                Ok(segment) => (None, segment),
                Err(_) => return None,
            }
        },
        Location::Fixed(v) => {
            let (seg_start, seg_len) = fixed_segment(v, size, guarded);
            let interval = Interval::new(seg_start, seg_len as usize);
            match vmm.mark_as_reserved(interval) {
                Ok(segment) => (Some(v), segment),
                Err(_) => return None,
            }
        },
    };
    let seg_start = segment.start();
    let seg_len = segment.size() as u64;
    proof {
        assert(guarded == Guarded::Yes ==> seg_len >= 8192);
    }
    let (mapped_start, mapped_len) = mapped_segment(seg_start, seg_len, guarded);
    let flags = allocation_flags(user_accessible);
    let start = match start {
        Some(v) => v,
        None => mapped_start,
    };
    Some(AllocationPlan { start, size, segment, mapped_start, mapped_len, flags })
}

} // verus!
