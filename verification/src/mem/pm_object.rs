//! Physical memory objects: the frames behind a region of virtual memory, taken either
//! all at once or one by one as pages are touched.
use vstd::prelude::*;
use crate::mem::manager::{allocate_phys_frames, deallocate_frames, frames_outcome, Allocator, MemoryManager};
use crate::mem::physical_stage2::FrameState;

verus! {

/// When the frames of an object are taken.
#[derive(Debug, Clone, Copy, PartialEq, Eq, Structural)]
pub enum AllocationStrategy_ {
    AllocateNow,
    AllocateOnAccess,
}

/// Why an allocation failed.
#[derive(Debug, Clone, Copy, PartialEq, Eq, Structural)]
pub enum AllocationError {
    OutOfMemory,
}

/// The number of 4 KiB frames that `size` bytes take.
pub open spec fn frames_for(size: int) -> int {
    (size + 4095) / 4096
}

/// The physical frames behind an object, by their start addresses.
#[derive(Debug)]
pub struct PmObject {
    allocation_strategy: AllocationStrategy_,
    phys_frames: Vec<u64>,
}

impl PmObject {
    pub closed spec fn spec_strategy(&self) -> AllocationStrategy_ {
        self.allocation_strategy
    }

    pub closed spec fn spec_frames(&self) -> Seq<u64> {
        self.phys_frames@
    }

    /// An object of `size` bytes. Taken now, its frames come from `mm` one by one; if one
    /// is missing, those taken are given back and the result is `OutOfMemory`. Taken on
    /// access, it starts without frames.
    pub fn create(mm: &mut MemoryManager, size: usize, allocation_strategy: AllocationStrategy_) -> (r: Result<PmObject, AllocationError>)
        requires
            old(mm).wf(),
            old(mm).spec_alloc() matches Allocator::Stage1(a) ==> a.spec_next() + frames_for(size as int) < usize::MAX,
        ensures
            final(mm).wf(),
            match allocation_strategy {
                AllocationStrategy_::AllocateOnAccess => {
                    &&& *final(mm) == *old(mm)
                    &&& r matches Ok(o) && o.spec_frames() == Seq::<u64>::empty() && o.spec_strategy() == allocation_strategy
                },
                AllocationStrategy_::AllocateNow => {
                    &&& r matches Ok(o) ==> o.spec_strategy() == allocation_strategy
                    &&& r matches Err(e) ==> e == AllocationError::OutOfMemory
                    &&& frames_outcome(*old(mm), *final(mm), frames_for(size as int), match r {
                        Ok(o) => Some(o.spec_frames()),
                        Err(_) => None,
                    })
                },
            },
    {
        match allocation_strategy {
            AllocationStrategy_::AllocateOnAccess => Ok(PmObject { allocation_strategy, phys_frames: Vec::new() }),
            AllocationStrategy_::AllocateNow => {
                let num_frames = if size % 4096 == 0 {
                    size / 4096
                } else {
                    size / 4096 + 1
                };
                match allocate_phys_frames(mm, num_frames) {
                    Ok(phys_frames) => Ok(PmObject { allocation_strategy, phys_frames }),
                    Err(_) => Err(AllocationError::OutOfMemory),
                }
            },
        }
    }

    /// The frames, in the order in which they were taken.
    pub fn phys_frames(&self) -> (r: &[u64])
        ensures
            r@ == self.spec_frames(),
    {
        self.phys_frames.as_slice()
    }

    pub fn allocation_strategy(&self) -> (r: AllocationStrategy_)
        ensures
            r == self.spec_strategy(),
    {
        self.allocation_strategy
    }

    /// Adds a frame taken on access.
    pub fn add_phys_frame(&mut self, frame: u64)
        ensures
            final(self).spec_frames() == old(self).spec_frames().push(frame),
            final(self).spec_strategy() == old(self).spec_strategy(),
    {
        self.phys_frames.push(frame);
    }
}

/// Gives the frames of an object back to `mm`.
pub fn deallocate_pm_object(pm_object: &PmObject, mm: &mut MemoryManager)
    requires
        old(mm).spec_alloc() matches Allocator::Stage2(a) ==> forall|j: int| 0 <= j < pm_object.spec_frames().len() ==> #[trigger] pm_object.spec_frames()[j] / 4096 < a.spec_frames().len(),
    ensures
        old(mm).wf() ==> final(mm).wf(),
        match (old(mm).spec_alloc(), final(mm).spec_alloc()) {
            (Allocator::Stage1(a), Allocator::Stage1(b)) => b == a,
            (Allocator::Stage2(a), Allocator::Stage2(b)) => {
                &&& b.spec_frames().len() == a.spec_frames().len()
                &&& forall|c: int| 0 <= c < a.spec_frames().len() ==> #[trigger] b.spec_frames()[c] == (if exists|j: int| 0 <= j < pm_object.spec_frames().len() && pm_object.spec_frames()[j] / 4096 == c {
                    FrameState::Free
                } else {
                    a.spec_frames()[c]
                })
            },
            _ => false,
        },
{
    proof {
        if let Allocator::Stage2(a) = old(mm).spec_alloc() {
            assert forall|j: int| 0 <= j < pm_object.phys_frames@.len() implies #[trigger] pm_object.phys_frames@[j] / 4096 < a.spec_frames().len() by {
                assert(pm_object.spec_frames()[j] / 4096 < a.spec_frames().len());
            }
        }
    }
    deallocate_frames(mm, &pm_object.phys_frames);
    proof {
        if let (Allocator::Stage2(a), Allocator::Stage2(b)) = (old(mm).spec_alloc(), mm.spec_alloc()) {
            assert forall|c: int| 0 <= c < a.spec_frames().len() implies #[trigger] b.spec_frames()[c] == (if exists|j: int| 0 <= j < pm_object.spec_frames().len() && pm_object.spec_frames()[j] / 4096 == c {
                FrameState::Free
            } else {
                a.spec_frames()[c]
            }) by {
                if exists|j: int| 0 <= j < pm_object.spec_frames().len() && pm_object.spec_frames()[j] / 4096 == c {
                    let j = choose|j: int| 0 <= j < pm_object.spec_frames().len() && pm_object.spec_frames()[j] / 4096 == c;
                    assert(pm_object.phys_frames@[j] / 4096 == c);
                }
                if exists|j: int| 0 <= j < pm_object.phys_frames@.len() && pm_object.phys_frames@[j] / 4096 == c {
                    let j = choose|j: int| 0 <= j < pm_object.phys_frames@.len() && pm_object.phys_frames@[j] / 4096 == c;
                    assert(pm_object.spec_frames()[j] / 4096 == c);
                }
            }
        }
    }
}

} // verus!
