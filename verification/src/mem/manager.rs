//! The physical memory manager: the first-stage allocator during boot, the frame-state
//! allocator afterwards.
use vstd::prelude::*;
use crate::mem::addr::is_valid_phys;
use crate::mem::frames::frame_start;
use crate::mem::phys::entries_fit;
use crate::mem::physical_stage1::{usable_frame_addrs, TrivialPhysicalFrameAllocator};
use crate::mem::physical_stage2::{first_free_from, FrameState, MemoryMapPhysicalFrameAllocator};
use crate::mem::virt::VmmError;

verus! {

/// The allocator that the memory manager currently uses.
pub enum Allocator {
    Stage1(TrivialPhysicalFrameAllocator),
    Stage2(MemoryMapPhysicalFrameAllocator),
}

/// Hands out and takes back physical frames.
pub struct MemoryManager {
    alloc: Allocator,
}

/// The search hint of a second-stage allocator as a position.
pub open spec fn hint(first_free: Option<usize>) -> int {
    match first_free {
        Some(f) => f as int,
        None => 0,
    }
}

impl MemoryManager {
    pub closed spec fn spec_alloc(&self) -> &Allocator {
        &self.alloc
    }

    /// The manager's allocator can hand out frames without failing on an invalid address.
    pub open spec fn wf(&self) -> bool {
        match self.spec_alloc() {
            Allocator::Stage1(a) => {
                &&& entries_fit(a.spec_regions())
                &&& forall|j: int| 0 <= j < usable_frame_addrs(a.spec_regions()).len()
                    ==> is_valid_phys(#[trigger] usable_frame_addrs(a.spec_regions())[j])
            },
            Allocator::Stage2(a) => a.spec_frames().len() * 4096 <= 0x10_0000_0000_0000,
        }
    }

    pub fn new(alloc: Allocator) -> (r: Self)
        ensures
            *r.spec_alloc() == alloc,
    {
        MemoryManager { alloc }
    }

    /// How many frames the first stage was asked for; `None` once the second stage runs.
    pub fn stage1_next(&self) -> (r: Option<usize>)
        ensures
            r == match self.spec_alloc() {
                Allocator::Stage1(a) => Some(a.spec_next()),
                Allocator::Stage2(_) => None::<usize>,
            },
    {
        match &self.alloc {
            Allocator::Stage1(a) => Some(a.next()),
            Allocator::Stage2(_) => None,
        }
    }

    /// Allocates one frame and returns its start address.
    pub fn allocate_frame(&mut self) -> (r: Option<u64>)
        requires
            old(self).wf(),
            old(self).spec_alloc() matches Allocator::Stage1(a) ==> a.spec_next() < usize::MAX,
        ensures
            final(self).wf(),
            match (old(self).spec_alloc(), final(self).spec_alloc()) {
                (Allocator::Stage1(a), Allocator::Stage1(b)) => {
                    let addrs = usable_frame_addrs(a.spec_regions());
                    &&& b.spec_regions() == a.spec_regions()
                    &&& b.spec_next() == a.spec_next() + 1
                    &&& if a.spec_next() < addrs.len() {
                        r == Some(frame_start(addrs[a.spec_next() as int]) as u64)
                    } else {
                        r is None
                    }
                },
                (Allocator::Stage2(a), Allocator::Stage2(b)) => match first_free_from(a.spec_frames(), hint(a.spec_first_free())) {
                    None => r is None && b.spec_frames() == a.spec_frames() && b.spec_first_free() == a.spec_first_free(),
                    Some(i) => {
                        &&& r == Some((i * 4096) as u64)
                        &&& a.spec_frames()[i] == FrameState::Free
                        &&& b.spec_frames() == a.spec_frames().update(i, FrameState::Allocated)
                        &&& b.spec_first_free() == next_hint(b.spec_frames(), i)
                    },
                },
                _ => false,
            },
    {
        match &mut self.alloc {
            Allocator::Stage1(a) => a.allocate_frame(),
            Allocator::Stage2(a) => {
                proof {
                    let from = hint(a.spec_first_free());
                    if first_free_from(a.spec_frames(), from) is Some {
                        crate::mem::physical_stage2::lemma_first_free_is_free(a.spec_frames(), from);
                        let i = first_free_from(a.spec_frames(), from)->0;
                        assert(i * 4096 < a.spec_frames().len() * 4096) by (nonlinear_arith)
                            requires i < a.spec_frames().len();
                    }
                }
                a.allocate_frame()
            },
        }
    }

    /// Takes back the frame at `frame`; the first stage never takes frames back.
    pub fn deallocate_frame(&mut self, frame: u64)
        requires
            old(self).spec_alloc() matches Allocator::Stage2(a) ==> frame / 4096 < a.spec_frames().len(),
        ensures
            old(self).wf() ==> final(self).wf(),
            match (old(self).spec_alloc(), final(self).spec_alloc()) {
                (Allocator::Stage1(a), Allocator::Stage1(b)) => b == a,
                (Allocator::Stage2(a), Allocator::Stage2(b)) => b.spec_frames() == a.spec_frames().update(
                    frame as int / 4096,
                    FrameState::Free,
                ),
                _ => false,
            },
    {
        match &mut self.alloc {
            Allocator::Stage1(_) => {},
            Allocator::Stage2(a) => a.deallocate_frame(frame),
        }
    }
}

/// The hint after an allocation of frame `i`: the next free frame after it.
pub open spec fn next_hint(frames: Seq<FrameState>, i: int) -> Option<usize> {
    match first_free_from(frames, i) {
        Some(j) => Some(j as usize),
        None => None,
    }
}

/// What `n` allocations in a row do to the frame states of the second stage: the indices
/// of the frames taken, the frame states and the hint afterwards; `None` if one of them
/// finds no free frame.
pub open spec fn alloc_run(frames: Seq<FrameState>, h: Option<usize>, n: nat) -> Option<(Seq<int>, Seq<FrameState>, Option<usize>)>
    decreases n,
{
    if n == 0 {
        Some((Seq::empty(), frames, h))
    } else {
        match first_free_from(frames, hint(h)) {
            None => None,
            Some(i) => {
                let f2 = frames.update(i, FrameState::Allocated);
                match alloc_run(f2, next_hint(f2, i), (n - 1) as nat) {
                    None => None,
                    Some(rest) => Some((seq![i] + rest.0, rest.1, rest.2)),
                }
            },
        }
    }
}

/// One more allocation after `k` of them.
pub proof fn lemma_run_snoc(f0: Seq<FrameState>, h0: Option<usize>, k: nat)
    ensures
        alloc_run(f0, h0, k + 1) == (match alloc_run(f0, h0, k) {
            None => None,
            Some(run) => match first_free_from(run.1, hint(run.2)) {
                None => None,
                Some(i) => {
                    let f2 = run.1.update(i, FrameState::Allocated);
                    Some((run.0.push(i), f2, next_hint(f2, i)))
                },
            },
        }),
    decreases k,
{
    if k > 0 {
        match first_free_from(f0, hint(h0)) {
            None => {},
            Some(i) => {
                let f2 = f0.update(i, FrameState::Allocated);
                lemma_run_snoc(f2, next_hint(f2, i), (k - 1) as nat);
                match alloc_run(f2, next_hint(f2, i), (k - 1) as nat) {
                    None => {},
                    Some(rest) => {
                        match first_free_from(rest.1, hint(rest.2)) {
                            None => {},
                            Some(j) => {
                                assert(seq![i] + rest.0.push(j) =~= (seq![i] + rest.0).push(j));
                            },
                        }
                    },
                }
            },
        }
    } else {
        match first_free_from(f0, hint(h0)) {
            None => {},
            Some(i) => {
                let f2 = f0.update(i, FrameState::Allocated);
                assert(alloc_run(f2, next_hint(f2, i), 0) == Some((Seq::<int>::empty(), f2, next_hint(f2, i))));
                assert(seq![i] + Seq::<int>::empty() =~= Seq::<int>::empty().push(i));
            },
        }
    }
}

/// Once an allocation fails, every longer run fails.
pub proof fn lemma_run_none_grows(f0: Seq<FrameState>, h0: Option<usize>, k: nat, n: nat)
    requires
        k <= n,
        alloc_run(f0, h0, k) is None,
    ensures
        alloc_run(f0, h0, n) is None,
    decreases n - k,
{
    if k < n {
        lemma_run_snoc(f0, h0, k);
        lemma_run_none_grows(f0, h0, k + 1, n);
    }
}

/// A run takes distinct frames that were free, and leaves every other frame as it was.
pub proof fn lemma_run_facts(f0: Seq<FrameState>, h0: Option<usize>, k: nat)
    requires
        alloc_run(f0, h0, k) is Some,
    ensures
        ({
            let run = alloc_run(f0, h0, k)->0;
            &&& run.0.len() == k
            &&& run.1.len() == f0.len()
            &&& forall|j: int| 0 <= j < k ==> 0 <= #[trigger] run.0[j] < f0.len() && f0[run.0[j]] == FrameState::Free
            &&& forall|j1: int, j2: int| 0 <= j1 < j2 < k ==> run.0[j1] != run.0[j2]
            &&& forall|c: int| 0 <= c < f0.len() ==> #[trigger] run.1[c] == (if run.0.contains(c) {
                FrameState::Allocated
            } else {
                f0[c]
            })
        }),
    decreases k,
{
    if k > 0 {
        lemma_run_snoc(f0, h0, (k - 1) as nat);
        let prev = alloc_run(f0, h0, (k - 1) as nat);
        if prev is None {
            assert(false);
        }
        lemma_run_facts(f0, h0, (k - 1) as nat);
        let p = prev->0;
        let i = first_free_from(p.1, hint(p.2))->0;
        crate::mem::physical_stage2::lemma_first_free_is_free(p.1, hint(p.2));
        let run = alloc_run(f0, h0, k)->0;
        assert(run.0 == p.0.push(i));
        assert(run.1 == p.1.update(i, FrameState::Allocated));
        assert(0 <= i < p.1.len());
        assert(!p.0.contains(i));
        assert forall|c: int| 0 <= c < f0.len() implies #[trigger] run.1[c] == (if run.0.contains(c) {
            FrameState::Allocated
        } else {
            f0[c]
        }) by {
            assert(p.1[c] == (if p.0.contains(c) { FrameState::Allocated } else { f0[c] }));
            if c == i {
                assert(run.0[run.0.len() - 1] == i);
                assert(run.0.contains(c));
            } else {
                assert(run.1[c] == p.1[c]);
                if run.0.contains(c) {
                    let j = choose|j: int| 0 <= j < run.0.len() && run.0[j] == c;
                    assert(j < p.0.len());
                    assert(p.0[j] == c);
                    assert(p.0.contains(c));
                }
                if p.0.contains(c) {
                    let j = choose|j: int| 0 <= j < p.0.len() && p.0[j] == c;
                    assert(run.0[j] == c);
                    assert(run.0.contains(c));
                }
            }
        }
        assert forall|j1: int, j2: int| 0 <= j1 < j2 < k implies run.0[j1] != run.0[j2] by {
            if j2 == k - 1 {
                assert(p.0.contains(p.0[j1]));
            }
        }
    }
}

/// Frees the frames at the given addresses, one after the other.
pub fn deallocate_frames(mm: &mut MemoryManager, frames: &Vec<u64>)
    requires
        old(mm).spec_alloc() matches Allocator::Stage2(a) ==> forall|j: int| 0 <= j < frames.len() ==> #[trigger] frames@[j] / 4096 < a.spec_frames().len(),
    ensures
        old(mm).wf() ==> final(mm).wf(),
        match (old(mm).spec_alloc(), final(mm).spec_alloc()) {
            (Allocator::Stage1(a), Allocator::Stage1(b)) => b == a,
            (Allocator::Stage2(a), Allocator::Stage2(b)) => {
                &&& b.spec_frames().len() == a.spec_frames().len()
                &&& forall|c: int| 0 <= c < a.spec_frames().len() ==> #[trigger] b.spec_frames()[c] == (if exists|j: int| 0 <= j < frames.len() && frames@[j] / 4096 == c {
                    FrameState::Free
                } else {
                    a.spec_frames()[c]
                })
            },
            _ => false,
        },
{
    let ghost old_mm = *mm;
    let mut j: usize = 0;
    while j < frames.len()
        invariant
            j <= frames.len(),
            old_mm.wf() ==> mm.wf(),
            old_mm == *old(mm),
            old_mm.spec_alloc() matches Allocator::Stage2(a) ==> forall|m: int| 0 <= m < frames.len() ==> #[trigger] frames@[m] / 4096 < a.spec_frames().len(),
            match (old_mm.spec_alloc(), mm.spec_alloc()) {
                (Allocator::Stage1(a), Allocator::Stage1(b)) => b == a,
                (Allocator::Stage2(a), Allocator::Stage2(b)) => {
                    &&& b.spec_frames().len() == a.spec_frames().len()
                    &&& forall|c: int| 0 <= c < a.spec_frames().len() ==> #[trigger] b.spec_frames()[c] == (if exists|m: int| 0 <= m < j && frames@[m] / 4096 == c {
                        FrameState::Free
                    } else {
                        a.spec_frames()[c]
                    })
                },
                _ => false,
            },
        decreases frames.len() - j,
    {
        mm.deallocate_frame(frames[j]);
        proof {
            match (old_mm.spec_alloc(), mm.spec_alloc()) {
                (Allocator::Stage2(a), Allocator::Stage2(b)) => {
                    assert forall|c: int| 0 <= c < a.spec_frames().len() implies #[trigger] b.spec_frames()[c] == (if exists|m: int| 0 <= m < j + 1 && frames@[m] / 4096 == c {
                        FrameState::Free
                    } else {
                        a.spec_frames()[c]
                    }) by {
                        if c == frames@[j as int] / 4096 {
                            assert(0 <= j < j + 1 && frames@[j as int] / 4096 == c);
                        } else if exists|m: int| 0 <= m < j + 1 && frames@[m] / 4096 == c {
                            let m = choose|m: int| 0 <= m < j + 1 && frames@[m] / 4096 == c;
                            assert(m < j);
                        }
                    }
                },
                _ => {},
            }
        }
        j = j + 1;
    }
}

/// What `num_frames` allocations in a row, given back if one fails, do: the frames they
/// hand out (`None` if one of them fails), and the manager before and after.
pub open spec fn frames_outcome(a0: MemoryManager, b0: MemoryManager, num_frames: int, r: Option<Seq<u64>>) -> bool {
    match (a0.spec_alloc(), b0.spec_alloc()) {
        (Allocator::Stage1(a), Allocator::Stage1(b)) => {
            let addrs = usable_frame_addrs(a.spec_regions());
            let n0 = a.spec_next() as int;
            &&& b.spec_regions() == a.spec_regions()
            &&& if num_frames == 0 || n0 + num_frames <= addrs.len() {
                &&& r matches Some(v) && v.len() == num_frames && (forall|j: int| 0 <= j < num_frames ==> #[trigger] v[j] == frame_start(addrs[n0 + j]))
                &&& b.spec_next() == n0 + num_frames
            } else {
                &&& r is None
                &&& b.spec_next() == (if n0 < addrs.len() { addrs.len() as int } else { n0 }) + 1
            }
        },
        (Allocator::Stage2(a), Allocator::Stage2(b)) => match alloc_run(a.spec_frames(), a.spec_first_free(), num_frames as nat) {
            Some(run) => r matches Some(v) && v.len() == num_frames && (forall|j: int| 0 <= j < num_frames ==> #[trigger] v[j] == run.0[j] * 4096)
                && b.spec_frames() == run.1,
            None => r is None && b.spec_frames() == a.spec_frames(),
        },
        _ => false,
    }
}

/// Allocates `num_frames` frames; if that fails part way, the frames allocated so far are
/// given back and the result is `OutOfMemory`.
pub fn allocate_phys_frames(mm: &mut MemoryManager, num_frames: usize) -> (r: Result<Vec<u64>, VmmError>)
    requires
        old(mm).wf(),
        old(mm).spec_alloc() matches Allocator::Stage1(a) ==> a.spec_next() + num_frames < usize::MAX,
    ensures
        final(mm).wf(),
        r matches Err(e) ==> e == VmmError::OutOfMemory,
        frames_outcome(*old(mm), *final(mm), num_frames as int, match r {
            Ok(v) => Some(v@),
            Err(_) => None,
        }),
{
    let ghost old_mm = *mm;
    let mut res: Vec<u64> = Vec::new();
    let mut k: usize = 0;
    while k < num_frames
        invariant
            mm.wf(),
            old_mm == *old(mm),
            k <= num_frames,
            res@.len() == k,
            match (old_mm.spec_alloc(), mm.spec_alloc()) {
                (Allocator::Stage1(a), Allocator::Stage1(b)) => {
                    let addrs = usable_frame_addrs(a.spec_regions());
                    &&& entries_fit(a.spec_regions())
                    &&& b.spec_regions() == a.spec_regions()
                    &&& b.spec_next() == a.spec_next() + k
                    &&& a.spec_next() + num_frames < usize::MAX
                    &&& (k == 0 || a.spec_next() + k <= addrs.len())
                    &&& forall|j: int| 0 <= j < k ==> #[trigger] res@[j] == frame_start(addrs[a.spec_next() + j])
                },
                (Allocator::Stage2(a), Allocator::Stage2(b)) => {
                    alloc_run(a.spec_frames(), a.spec_first_free(), k as nat) matches Some(run)
                        && b.spec_frames() == run.1 && b.spec_first_free() == run.2
                        && (forall|j: int| 0 <= j < k ==> #[trigger] res@[j] == run.0[j] * 4096)
                },
                _ => false,
            },
        decreases num_frames - k,
    {
        let ghost before = *mm;
        let next_frame = mm.allocate_frame();
        proof {
            match (old_mm.spec_alloc(), before.spec_alloc()) {
                (Allocator::Stage2(a), Allocator::Stage2(_)) => {
                    lemma_run_snoc(a.spec_frames(), a.spec_first_free(), k as nat);
                },
                _ => {},
            }
        }
        match next_frame {
            Some(frame) => {
                let ghost old_res = res@;
                res.push(frame);
                proof {
                    match (old_mm.spec_alloc(), before.spec_alloc(), mm.spec_alloc()) {
                        (Allocator::Stage1(a), Allocator::Stage1(c), Allocator::Stage1(b)) => {
                            crate::mem::frames::lemma_ranges_addrs_bounds(crate::mem::physical_stage1::entry_ranges(a.spec_regions()));
                            let addrs = usable_frame_addrs(a.spec_regions());
                            assert(c.spec_next() == a.spec_next() + k);
                            assert(c.spec_next() < addrs.len());
                            let x = addrs[a.spec_next() + k];
                            assert(0 <= x < u64::MAX);
                            assert(0 <= frame_start(x) <= x);
                            assert(frame == frame_start(x));
                            assert forall|j: int| 0 <= j < k + 1 implies #[trigger] res@[j] == frame_start(addrs[a.spec_next() + j]) by {
                                if j < k {
                                    assert(res@[j] == old_res[j]);
                                }
                            }
                        },
                        (Allocator::Stage2(a), Allocator::Stage2(c), Allocator::Stage2(b)) => {
                            lemma_run_facts(a.spec_frames(), a.spec_first_free(), k as nat);
                            let run = alloc_run(a.spec_frames(), a.spec_first_free(), k as nat)->0;
                            assert(c.spec_frames() == run.1 && c.spec_first_free() == run.2);
                            let i = first_free_from(c.spec_frames(), hint(c.spec_first_free()))->0;
                            crate::mem::physical_stage2::lemma_first_free_is_free(c.spec_frames(), hint(c.spec_first_free()));
                            assert(i * 4096 <= c.spec_frames().len() * 4096) by (nonlinear_arith)
                                requires i < c.spec_frames().len();
                            let run2 = alloc_run(a.spec_frames(), a.spec_first_free(), (k + 1) as nat)->0;
                            assert(run2.0 == run.0.push(i));
                            assert(frame == i * 4096);
                            assert forall|j: int| 0 <= j < k + 1 implies #[trigger] res@[j] == run2.0[j] * 4096 by {
                                if j < k {
                                    assert(res@[j] == old_res[j]);
                                    assert(run2.0[j] == run.0[j]);
                                }
                            }
                        },
                        _ => {},
                    }
                }
            },
            None => {
                proof {
                    match (old_mm.spec_alloc(), mm.spec_alloc()) {
                        (Allocator::Stage2(a), Allocator::Stage2(b)) => {
                            lemma_run_none_grows(a.spec_frames(), a.spec_first_free(), k as nat + 1, num_frames as nat);
                            lemma_run_facts(a.spec_frames(), a.spec_first_free(), k as nat);
                            let run = alloc_run(a.spec_frames(), a.spec_first_free(), k as nat)->0;
                            assert forall|j: int| 0 <= j < res.len() implies #[trigger] res@[j] / 4096 < b.spec_frames().len() by {
                                assert(res@[j] == run.0[j] * 4096);
                                assert((run.0[j] * 4096) / 4096 == run.0[j]) by (nonlinear_arith);
                            }
                        },
                        _ => {},
                    }
                }
                // give back what was allocated so far
                let ghost failed = *mm;
                deallocate_frames(mm, &res);
                proof {
                    match (old_mm.spec_alloc(), failed.spec_alloc(), mm.spec_alloc()) {
                        (Allocator::Stage2(a), Allocator::Stage2(f), Allocator::Stage2(b)) => {
                            let run = alloc_run(a.spec_frames(), a.spec_first_free(), k as nat)->0;
                            assert forall|c: int| 0 <= c < a.spec_frames().len() implies #[trigger] b.spec_frames()[c] == a.spec_frames()[c] by {
                                if exists|m: int| 0 <= m < res.len() && res@[m] / 4096 == c {
                                    let m = choose|m: int| 0 <= m < res.len() && res@[m] / 4096 == c;
                                    assert((run.0[m] * 4096) / 4096 == run.0[m]) by (nonlinear_arith);
                                    assert(run.0[m] == c);
                                } else {
                                    if run.0.contains(c) {
                                        let m = choose|m: int| 0 <= m < run.0.len() && run.0[m] == c;
                                        assert((run.0[m] * 4096) / 4096 == run.0[m]) by (nonlinear_arith);
                                        assert(res@[m] / 4096 == c);
                                    }
                                }
                            }
                            assert(b.spec_frames() =~= a.spec_frames());
                        },
                        _ => {},
                    }
                }
                return Err(VmmError::OutOfMemory);
            },
        }
        k = k + 1;
    }
    Ok(res)
}

} // verus!
