//! Bookkeeping of the reserved ranges of a virtual address range.
use vstd::prelude::*;
use crate::mem::addr::{is_canonical, virt_addr_add};

verus! {

/// Whether `a` is canonical.
fn is_canonical_exec(a: u64) -> (r: bool)
    ensures
        r == is_canonical(a as int),
{
    a < 0x8000_0000_0000 || a >= 0xFFFF_8000_0000_0000
}

/// The size of a 4 KiB page, the granularity of reservations.
pub const PAGE_SIZE: u64 = 4096;

/// A range of virtual memory: a start address and a size in bytes.
#[derive(Copy, Clone, Debug, PartialEq, Eq, Structural)]
pub struct Interval {
    start: u64,
    size: usize,
}

impl Interval {
    pub closed spec fn spec_start(self) -> u64 {
        self.start
    }

    pub closed spec fn spec_size(self) -> usize {
        self.size
    }

    /// Two intervals with the same start and size are the same interval.
    pub proof fn lemma_same_fields(a: Interval, b: Interval)
        requires
            a.spec_start() == b.spec_start(),
            a.spec_size() == b.spec_size(),
        ensures
            a == b,
    {
    }

    /// The first address after the interval.
    pub open spec fn spec_end(self) -> int {
        self.spec_start() + self.spec_size()
    }

    /// Creates an interval; `start` must be a canonical address.
    pub fn new(start: u64, size: usize) -> (r: Self)
        requires
            is_canonical(start as int),
        ensures
            r.spec_start() == start,
            r.spec_size() == size,
    {
        Interval { start, size }
    }

    pub fn start(&self) -> (r: u64)
        ensures
            r == self.spec_start(),
    {
        self.start
    }

    pub fn size(&self) -> (r: usize)
        ensures
            r == self.spec_size(),
    {
        self.size
    }
}

/// The range `[start, start + size)` and the interval `e` share at least one address
/// (or the empty range lies strictly inside `e`).
pub open spec fn overlaps(start: int, size: int, e: Interval) -> bool {
    start < e.spec_end() && e.spec_start() < start + size
}

/// The order of intervals: by start address, then by size.
pub open spec fn interval_lt(a: Interval, b: Interval) -> bool {
    a.spec_start() < b.spec_start() || (a.spec_start() == b.spec_start() && a.spec_size()
        < b.spec_size())
}

/// The position of the first interval at or after position `i` of `ivs` that overlaps
/// `[start, start + size)`.
pub open spec fn first_overlap_from(ivs: Seq<Interval>, i: int, start: int, size: int) -> Option<int>
    decreases ivs.len() - i,
{
    if i < 0 || i >= ivs.len() {
        None
    } else if overlaps(start, size, ivs[i]) {
        Some(i)
    } else {
        first_overlap_from(ivs, i + 1, start, size)
    }
}

/// If the search from position `i` finds nothing, nothing at or after `i` overlaps.
pub proof fn lemma_first_overlap_none(ivs: Seq<Interval>, i: int, start: int, size: int, j: int)
    requires
        0 <= i <= j < ivs.len(),
        first_overlap_from(ivs, i, start, size) is None,
    ensures
        !overlaps(start, size, ivs[j]),
    decreases j - i,
{
    if i < j {
        lemma_first_overlap_none(ivs, i + 1, start, size, j);
    }
}

/// What the search from position `k` finds lies at or after `k` and overlaps.
pub proof fn lemma_first_overlap_some(ivs: Seq<Interval>, k: int, start: int, size: int)
    requires
        first_overlap_from(ivs, k, start, size) is Some,
    ensures
        k <= first_overlap_from(ivs, k, start, size)->0 < ivs.len(),
        0 <= k ==> 0 <= first_overlap_from(ivs, k, start, size)->0,
        overlaps(start, size, ivs[first_overlap_from(ivs, k, start, size)->0]),
    decreases ivs.len() - k,
{
    if 0 <= k < ivs.len() && !overlaps(start, size, ivs[k]) {
        lemma_first_overlap_some(ivs, k + 1, start, size);
    }
}

/// The start address that the first-fit search reaches from `s`: as long as the
/// candidate range `[s, s + size)` overlaps an interval, it moves to the end of the
/// first such interval.
pub open spec fn first_fit(ivs: Seq<Interval>, s: int, size: int) -> int
    decreases 0x4_0000_0000_0000_0000int - s,
{
    match first_overlap_from(ivs, 0, s, size) {
        None => s,
        Some(i) => {
            if 0 <= i < ivs.len() && s < ivs[i].spec_end() <= 0x4_0000_0000_0000_0000int {
                first_fit(ivs, ivs[i].spec_end(), size)
            } else {
                s
            }
        },
    }
}

/// Some interval ends after `s`.
pub open spec fn some_end_above(ivs: Seq<Interval>, s: int) -> bool {
    exists|j: int| 0 <= j < ivs.len() && s < #[trigger] ivs[j].spec_end()
}

/// Every candidate range that the first-fit search from `s` looks at, and whose end
/// it has to compute, ends at a canonical address.
pub open spec fn visits_canonical(ivs: Seq<Interval>, s: int, size: int) -> bool
    decreases 0x4_0000_0000_0000_0000int - s,
{
    &&& (some_end_above(ivs, s) ==> is_canonical(s + size))
    &&& match first_overlap_from(ivs, 0, s, size) {
        None => true,
        Some(i) => {
            if 0 <= i < ivs.len() && s < ivs[i].spec_end() <= 0x4_0000_0000_0000_0000int {
                visits_canonical(ivs, ivs[i].spec_end(), size)
            } else {
                true
            }
        },
    }
}

/// One step of the first-fit search: from an overlapped candidate, the search goes on
/// from the end of the first overlapping interval.
pub proof fn lemma_visits_unfold(ivs: Seq<Interval>, s: int, size: int)
    ensures
        first_overlap_from(ivs, 0, s, size) is None ==> first_fit(ivs, s, size) == s,
        first_overlap_from(ivs, 0, s, size) matches Some(i) ==> (0 <= i < ivs.len() && s
            < ivs[i].spec_end() && (ivs[i].spec_end() <= 0x4_0000_0000_0000_0000int ==> (
        first_fit(ivs, s, size) == first_fit(ivs, ivs[i].spec_end(), size) && (visits_canonical(
            ivs,
            s,
            size,
        ) ==> visits_canonical(ivs, ivs[i].spec_end(), size))))),
{
    if first_overlap_from(ivs, 0, s, size) is Some {
        lemma_first_overlap_some(ivs, 0, s, size);
    }
}

/// `v` rounded up to the next multiple of the page size.
pub open spec fn align_up(v: int) -> int {
    if v % 4096 == 0 {
        v
    } else {
        (v / 4096 + 1) * 4096
    }
}

/// Rounds `v` up to the next multiple of the page size.
fn align_up_to(v: usize) -> (r: usize)
    requires
        align_up(v as int) <= usize::MAX,
    ensures
        r == align_up(v as int),
{
    let w = v as u64;
    let mask: u64 = PAGE_SIZE - 1;
    assert(w & 4095 == w % 4096) by (bit_vector);
    if w & mask == 0 {
        v
    } else {
        assert((w | 4095) == w - w % 4096 + 4095) by (bit_vector);
        assert(w - w % 4096 == (w / 4096) * 4096) by (nonlinear_arith);
        let aligned = (w | mask) + 1;
        aligned as usize
    }
}

/// An error of the virtual memory manager.
#[derive(Debug, Copy, Clone, PartialEq, Eq, Structural)]
pub enum VmmError {
    /// The requested memory is already allocated.
    AlreadyAllocated,
    /// There is not enough free memory.
    OutOfMemory,
}

impl VmmError {
    /// The message that describes the error.
    pub fn message(&self) -> (r: &'static str)
        ensures
            r@ == match *self {
                VmmError::AlreadyAllocated => "requested memory is already allocated"@,
                VmmError::OutOfMemory => "out of memory"@,
            },
    {
        match self {
            VmmError::AlreadyAllocated => "requested memory is already allocated",
            VmmError::OutOfMemory => "out of memory",
        }
    }
}

/// An interval that was reserved by a virtual memory manager.
#[derive(Debug)]
pub struct OwnedInterval {
    interval: Interval,
}

impl OwnedInterval {
    pub closed spec fn view(&self) -> Interval {
        self.interval
    }

    /// Gives up ownership: the interval stays reserved.
    pub fn leak(self) -> (r: Interval)
        ensures
            r == self@,
    {
        self.interval
    }

    pub fn start(&self) -> (r: u64)
        ensures
            r == self@.spec_start(),
    {
        self.interval.start
    }

    pub fn size(&self) -> (r: usize)
        ensures
            r == self@.spec_size(),
    {
        self.interval.size
    }
}

/// Where a new mapping goes.
#[derive(Debug, Copy, Clone, PartialEq, Eq, Structural)]
pub enum MapAt {
    Fixed(u64),
    Anywhere,
}

/// Keeps track of which parts of the range `[mem_start, mem_start + mem_size)` are reserved.
pub struct VirtualMemoryManager {
    mem_start: u64,
    mem_size: usize,
    inner: Vec<Interval>,
}

impl VirtualMemoryManager {
    /// The reserved intervals, in ascending order.
    pub fn reserved(&self) -> (r: Vec<Interval>)
        ensures
            r@ == self@,
    {
        let mut r: Vec<Interval> = Vec::new();
        let mut i: usize = 0;
        while i < self.inner.len()
            invariant
                i <= self.inner@.len(),
                r@ == self.inner@.take(i as int),
            decreases self.inner@.len() - i,
        {
            r.push(self.inner[i]);
            assert(r@ =~= self.inner@.take(i + 1));
            i = i + 1;
        }
        assert(self.inner@.take(i as int) =~= self.inner@);
        r
    }

    /// How many intervals are reserved.
    pub fn reserved_count(&self) -> (r: usize)
        ensures
            r == self@.len(),
    {
        self.inner.len()
    }

    /// The reserved intervals, in ascending order.
    pub closed spec fn view(&self) -> Seq<Interval> {
        self.inner@
    }

    pub closed spec fn spec_mem_start(&self) -> u64 {
        self.mem_start
    }

    pub closed spec fn spec_mem_size(&self) -> usize {
        self.mem_size
    }

    /// The reserved intervals are sorted, pairwise without overlap, and begin and end at
    /// canonical addresses; the managed range begins at a page-aligned canonical address.
    pub closed spec fn wf(&self) -> bool {
        &&& is_canonical(self.mem_start as int)
        &&& self.mem_start % 4096 == 0
        &&& forall|i: int, j: int|
            0 <= i < j < self.inner@.len() ==> interval_lt(self.inner@[i], self.inner@[j])
        &&& forall|i: int, j: int|
            0 <= i < self.inner@.len() && 0 <= j < self.inner@.len() && i != j ==> !overlaps(
                self.inner@[i].spec_start() as int,
                self.inner@[i].spec_size() as int,
                self.inner@[j],
            )
        &&& forall|i: int|
            0 <= i < self.inner@.len() ==> is_canonical(
                #[trigger] self.inner@[i].spec_start() as int,
            ) && is_canonical(self.inner@[i].spec_end())
    }

    /// Creates a manager for the range `[mem_start, mem_start + mem_size)`, of which
    /// nothing is reserved yet. `mem_start` must be a page-aligned canonical address.
    pub fn new(mem_start: u64, mem_size: usize) -> (r: Self)
        requires
            is_canonical(mem_start as int),
            mem_start % 4096 == 0,
        ensures
            r.wf(),
            r@ == Seq::<Interval>::empty(),
            r.spec_mem_start() == mem_start,
            r.spec_mem_size() == mem_size,
    {
        VirtualMemoryManager { mem_start, mem_size, inner: Vec::new() }
    }

    /// Whether some reserved interval ends above `s`.
    fn any_end_above(&self, s: u64) -> (r: bool)
        requires
            self.wf(),
        ensures
            r == some_end_above(self@, s as int),
    {
        let mut i: usize = 0;
        while i < self.inner.len()
            invariant
                self.wf(),
                i <= self.inner@.len(),
                forall|j: int| 0 <= j < i ==> !(s < #[trigger] self@[j].spec_end()),
            decreases self.inner@.len() - i,
        {
            let e = self.inner[i];
            let end = e.start as u128 + e.size as u128;
            if (s as u128) < end {
                assert(s < self@[i as int].spec_end());
                return true;
            }
            i = i + 1;
        }
        false
    }

    /// Whether a first-fit search for `size` bytes from the start of the range looks
    /// only at candidates whose ends it can compute, and ends at a canonical address.
    fn first_fit_canonical(&self, size: usize) -> (r: bool)
        requires
            self.wf(),
        ensures
            r == (visits_canonical(self@, self.mem_start as int, size as int) && is_canonical(
                first_fit(self@, self.mem_start as int, size as int) + size,
            )),
    {
        let mut s: u64 = self.mem_start;
        loop
            invariant
                self.wf(),
                is_canonical(s as int),
                self.mem_start <= s,
                visits_canonical(self@, self.mem_start as int, size as int) == visits_canonical(self@, s as int, size as int),
                first_fit(self@, self.mem_start as int, size as int) == first_fit(self@, s as int, size as int),
            decreases u64::MAX - s,
        {
            let above = self.any_end_above(s);
            let end = s as u128 + size as u128;
            let end_ok = end <= u64::MAX as u128 && is_canonical_exec(end as u64);
            assert(end_ok == is_canonical(s + size));
            if above && !end_ok {
                return false;
            }
            match self.find_overlapping_element(s, size) {
                None => {
                    return end_ok;
                },
                Some(e) => {
                    proof {
                        lemma_first_overlap_some(self@, 0, s as int, size as int);
                        let i = first_overlap_from(self@, 0, s as int, size as int)->0;
                        assert(is_canonical(self@[i].spec_end()));
                    }
                    let next = (e.start as u128 + e.size as u128) as u64;
                    s = next;
                },
            }
        }
    }

    /// Whether `reserve(size)` may be called: the rounded-up size fits in a `usize`, the
    /// range ends at a canonical address, and the first-fit search only computes
    /// canonical ends.
    pub fn reserve_in_bounds(&self, size: usize) -> (r: bool)
        requires
            self.wf(),
        ensures
            r == (align_up(size as int) <= usize::MAX && is_canonical(self.spec_mem_start() + self.spec_mem_size())
                && visits_canonical(self@, self.spec_mem_start() as int, align_up(size as int))
                && is_canonical(first_fit(self@, self.spec_mem_start() as int, align_up(size as int)) + align_up(size as int))),
    {
        let rounded = size as u128 + 4095;
        if rounded - rounded % 4096 > usize::MAX as u128 {
            assert(align_up(size as int) > usize::MAX) by (nonlinear_arith)
                requires
                    rounded == size + 4095,
                    rounded - rounded % 4096 > usize::MAX,
                    align_up(size as int) == if size % 4096 == 0 { size as int } else { (size / 4096 + 1) * 4096 },
            ;
            return false;
        }
        let aligned = align_up_to(size);
        let mem_end = self.mem_start as u128 + self.mem_size as u128;
        if !(mem_end <= u64::MAX as u128 && is_canonical_exec(mem_end as u64)) {
            return false;
        }
        self.first_fit_canonical(aligned)
    }

    /// Returns the first reserved interval, in ascending order, that overlaps
    /// `[start, start + size)`.
    pub fn find_overlapping_element(&self, start: u64, size: usize) -> (r: Option<Interval>)
        requires
            self.wf(),
            is_canonical(start as int),
            some_end_above(self@, start as int) ==> is_canonical(start + size),
        ensures
            r == (match first_overlap_from(self@, 0, start as int, size as int) {
                Some(i) => Some(self@[i]),
                None => None::<Interval>,
            }),
    {
        let mut i: usize = 0;
        while i < self.inner.len()
            invariant
                self.wf(),
                is_canonical(start as int),
                some_end_above(self@, start as int) ==> is_canonical(start + size),
                i <= self.inner@.len(),
                first_overlap_from(self@, 0, start as int, size as int) == first_overlap_from(
                    self@,
                    i as int,
                    start as int,
                    size as int,
                ),
            decreases self.inner@.len() - i,
        {
            let e = self.inner[i];
            assert(is_canonical(self.inner@[i as int].spec_start() as int));
            let e_end = virt_addr_add(e.start, e.size as u64);
            if start < e_end {
                assert(some_end_above(self@, start as int));
                let end = virt_addr_add(start, size as u64);
                if e.start < end {
                    return Some(e);
                }
            }
            i = i + 1;
        }
        None
    }

    /// Adds `iv` to the reserved intervals unless it is there already; returns whether it
    /// was added.
    fn insert_interval(&mut self, iv: Interval) -> (added: bool)
        requires
            old(self).wf(),
            is_canonical(iv.spec_start() as int),
            is_canonical(iv.spec_end()),
            forall|j: int|
                0 <= j < old(self)@.len() ==> !overlaps(
                    iv.spec_start() as int,
                    iv.spec_size() as int,
                    #[trigger] old(self)@[j],
                ),
        ensures
            final(self).wf(),
            added == !old(self)@.contains(iv),
            forall|x: Interval| #[trigger] final(self)@.contains(x) <==> (old(self)@.contains(x) || x == iv),
            final(self).spec_mem_start() == old(self).spec_mem_start(),
            final(self).spec_mem_size() == old(self).spec_mem_size(),
    {
        let ghost old_ivs = self.inner@;
        let mut i: usize = 0;
        while i < self.inner.len() && (self.inner[i].start < iv.start || (self.inner[i].start
            == iv.start && self.inner[i].size < iv.size))
            invariant
                i <= self.inner@.len(),
                self.inner@ == old_ivs,
                self.wf(),
                self.mem_start == old(self).mem_start,
                self.mem_size == old(self).mem_size,
                old(self)@ == old_ivs,
                forall|j: int| 0 <= j < i ==> interval_lt(#[trigger] old_ivs[j], iv),
            decreases self.inner@.len() - i,
        {
            i = i + 1;
        }
        if i < self.inner.len() && self.inner[i].start == iv.start && self.inner[i].size == iv.size {
            assert(old_ivs[i as int] == iv);
            return false;
        }
        proof {
            assert forall|j: int| i <= j < old_ivs.len() implies interval_lt(iv, #[trigger] old_ivs[j]) by {
                if j > i {
                    assert(interval_lt(old_ivs[i as int], old_ivs[j]));
                }
            }
            assert(!old_ivs.contains(iv)) by {
                if old_ivs.contains(iv) {
                    let k = choose|k: int| 0 <= k < old_ivs.len() && old_ivs[k] == iv;
                    if k < i {
                        assert(interval_lt(old_ivs[k], iv));
                    } else {
                        assert(interval_lt(iv, old_ivs[k]));
                    }
                }
            }
        }
        self.inner.insert(i, iv);
        proof {
            let n = self.inner@;
            assert(n == old_ivs.insert(i as int, iv));
            assert forall|a: int, b: int| 0 <= a < b < n.len() implies interval_lt(n[a], n[b]) by {
                if b < i {
                } else if a < i && b == i {
                } else if a < i {
                    assert(n[b] == old_ivs[b - 1]);
                } else if a == i {
                    assert(n[b] == old_ivs[b - 1]);
                } else {
                    assert(n[a] == old_ivs[a - 1]);
                    assert(n[b] == old_ivs[b - 1]);
                }
            }
            assert forall|a: int, b: int|
                0 <= a < n.len() && 0 <= b < n.len() && a != b implies !overlaps(
                    n[a].spec_start() as int,
                    n[a].spec_size() as int,
                    n[b],
                ) by {
                if a != i && b != i {
                    let a0 = if a < i { a } else { a - 1 };
                    let b0 = if b < i { b } else { b - 1 };
                    assert(n[a] == old_ivs[a0]);
                    assert(n[b] == old_ivs[b0]);
                } else if a == i {
                    let b0 = if b < i { b } else { b - 1 };
                    assert(n[b] == old_ivs[b0]);
                    assert(!overlaps(iv.spec_start() as int, iv.spec_size() as int, old_ivs[b0]));
                } else {
                    let a0 = if a < i { a } else { a - 1 };
                    assert(n[a] == old_ivs[a0]);
                    assert(!overlaps(iv.spec_start() as int, iv.spec_size() as int, old_ivs[a0]));
                }
            }
            assert forall|a: int| 0 <= a < n.len() implies is_canonical(
                #[trigger] n[a].spec_start() as int,
            ) && is_canonical(n[a].spec_end()) by {
                if a < i {
                } else if a > i {
                    assert(n[a] == old_ivs[a - 1]);
                }
            }
            assert forall|x: Interval| #[trigger] n.contains(x) <==> (old_ivs.contains(x) || x == iv) by {
                if n.contains(x) {
                    let k = choose|k: int| 0 <= k < n.len() && n[k] == x;
                    if k < i {
                        assert(old_ivs[k] == x);
                    } else if k > i {
                        assert(old_ivs[k - 1] == x);
                    }
                }
                if old_ivs.contains(x) {
                    let k = choose|k: int| 0 <= k < old_ivs.len() && old_ivs[k] == x;
                    if k < i {
                        assert(n[k] == x);
                    } else {
                        assert(n[k + 1] == x);
                    }
                }
                if x == iv {
                    assert(n[i as int] == x);
                }
            }
        }
        true
    }

    /// Marks `interval` as reserved, unless it overlaps a reserved interval.
    pub fn mark_as_reserved(&mut self, interval: Interval) -> (r: Result<OwnedInterval, VmmError>)
        requires
            old(self).wf(),
            is_canonical(interval.spec_start() as int),
            is_canonical(interval.spec_end()),
        ensures
            final(self).wf(),
            final(self).spec_mem_start() == old(self).spec_mem_start(),
            final(self).spec_mem_size() == old(self).spec_mem_size(),
            match first_overlap_from(
                old(self)@,
                0,
                interval.spec_start() as int,
                interval.spec_size() as int,
            ) {
                Some(_) => r == Err::<OwnedInterval, VmmError>(VmmError::AlreadyAllocated)
                    && final(self)@ == old(self)@,
                None => r matches Ok(o) && o@ == interval && (forall|x: Interval|
                    #[trigger] final(self)@.contains(x) <==> (old(self)@.contains(x) || x
                        == interval)),
            },
    {
        let found = self.find_overlapping_element(interval.start, interval.size);
        if found.is_some() {
            return Err(VmmError::AlreadyAllocated);
        }
        proof {
            self.lemma_no_overlap_found(interval.spec_start() as int, interval.spec_size() as int);
        }
        self.insert_interval(interval);
        Ok(OwnedInterval { interval })
    }

    /// If the search finds no overlapping interval, no interval overlaps.
    proof fn lemma_no_overlap_found(&self, start: int, size: int)
        requires
            first_overlap_from(self@, 0, start, size) is None,
        ensures
            forall|j: int| 0 <= j < self@.len() ==> !overlaps(start, size, #[trigger] self@[j]),
    {
        assert forall|j: int| 0 <= j < self@.len() implies !overlaps(start, size, #[trigger] self@[j]) by {
            lemma_first_overlap_none(self@, 0, start, size, j);
        }
    }

    /// Releases a reserved interval; returns whether it was reserved.
    pub fn release(&mut self, interval: Interval) -> (r: bool)
        requires
            old(self).wf(),
        ensures
            final(self).wf(),
            r == old(self)@.contains(interval),
            forall|x: Interval| #[trigger] final(self)@.contains(x) <==> (old(self)@.contains(x) && x
                != interval),
            final(self).spec_mem_start() == old(self).spec_mem_start(),
            final(self).spec_mem_size() == old(self).spec_mem_size(),
    {
        let ghost old_ivs = self.inner@;
        let mut i: usize = 0;
        while i < self.inner.len()
            invariant
                i <= self.inner@.len(),
                self.inner@ == old_ivs,
                self.wf(),
                self.mem_start == old(self).mem_start,
                self.mem_size == old(self).mem_size,
                old(self)@ == old_ivs,
                forall|j: int| 0 <= j < i ==> #[trigger] old_ivs[j] != interval,
            decreases self.inner@.len() - i,
        {
            if self.inner[i].start == interval.start && self.inner[i].size == interval.size {
                assert(old_ivs[i as int] == interval);
                self.inner.remove(i);
                proof {
                    let n = self.inner@;
                    assert(n == old_ivs.remove(i as int));
                    assert forall|a: int, b: int| 0 <= a < b < n.len() implies interval_lt(n[a], n[b]) by {
                        let a0 = if a < i { a } else { a + 1 };
                        let b0 = if b < i { b } else { b + 1 };
                        assert(n[a] == old_ivs[a0]);
                        assert(n[b] == old_ivs[b0]);
                    }
                    assert forall|a: int, b: int|
                        0 <= a < n.len() && 0 <= b < n.len() && a != b implies !overlaps(
                            n[a].spec_start() as int,
                            n[a].spec_size() as int,
                            n[b],
                        ) by {
                        let a0 = if a < i { a } else { a + 1 };
                        let b0 = if b < i { b } else { b + 1 };
                        assert(n[a] == old_ivs[a0]);
                        assert(n[b] == old_ivs[b0]);
                    }
                    assert forall|a: int| 0 <= a < n.len() implies is_canonical(
                        #[trigger] n[a].spec_start() as int,
                    ) && is_canonical(n[a].spec_end()) by {
                        let a0 = if a < i { a } else { a + 1 };
                        assert(n[a] == old_ivs[a0]);
                    }
                    assert forall|x: Interval| #[trigger] n.contains(x) <==> (old_ivs.contains(x)
                        && x != interval) by {
                        if n.contains(x) {
                            let k = choose|k: int| 0 <= k < n.len() && n[k] == x;
                            let k0 = if k < i { k } else { k + 1 };
                            assert(old_ivs[k0] == x);
                            if x == interval {
                                assert(interval_lt(old_ivs[i as int], old_ivs[k0])
                                    || interval_lt(old_ivs[k0], old_ivs[i as int]));
                            }
                        }
                        if old_ivs.contains(x) && x != interval {
                            let k = choose|k: int| 0 <= k < old_ivs.len() && old_ivs[k] == x;
                            if k < i {
                                assert(n[k] == x);
                            } else {
                                assert(k != i);
                                assert(n[k - 1] == x);
                            }
                        }
                    }
                }
                return true;
            }
            i = i + 1;
        }
        false
    }

    /// Reserves `size` bytes, rounded up to whole pages, at the lowest address that the
    /// first-fit search from the start of the managed range reaches.
    pub fn reserve(&mut self, size: usize) -> (r: Result<OwnedInterval, VmmError>)
        requires
            old(self).wf(),
            align_up(size as int) <= usize::MAX,
            is_canonical(old(self).spec_mem_start() + old(self).spec_mem_size()),
            visits_canonical(old(self)@, old(self).spec_mem_start() as int, align_up(size as int)),
            is_canonical(
                first_fit(old(self)@, old(self).spec_mem_start() as int, align_up(size as int))
                    + align_up(size as int),
            ),
        ensures
            final(self).wf(),
            final(self).spec_mem_start() == old(self).spec_mem_start(),
            final(self).spec_mem_size() == old(self).spec_mem_size(),
            ({
                let sz = align_up(size as int);
                let s = first_fit(old(self)@, old(self).spec_mem_start() as int, sz);
                if s + sz > old(self).spec_mem_start() + old(self).spec_mem_size() {
                    r == Err::<OwnedInterval, VmmError>(VmmError::OutOfMemory) && final(self)@
                        == old(self)@
                } else {
                    r matches Ok(o) && o@.spec_start() == s && o@.spec_size() == sz && (forall|
                        x: Interval,
                    |
                        #[trigger] final(self)@.contains(x) <==> (old(self)@.contains(x) || x
                            == o@))
                }
            }),
    {
        let size = align_up_to(size);
        let ghost sz = size as int;
        let ghost ivs = self.inner@;
        let mut start = self.mem_start;
        proof {
            lemma_visits_unfold(ivs, start as int, sz);
        }
        let mut found = self.find_overlapping_element(start, size);
        while found.is_some()
            invariant
                self.wf(),
                self@ == ivs,
                self.mem_start == old(self).mem_start,
                self.mem_size == old(self).mem_size,
                ivs == old(self)@,
                sz == size,
                is_canonical(start as int),
                first_fit(ivs, start as int, sz) == first_fit(ivs, old(self).mem_start as int, sz),
                visits_canonical(ivs, start as int, sz),
                found == (match first_overlap_from(ivs, 0, start as int, sz) {
                    Some(i) => Some(ivs[i]),
                    None => None::<Interval>,
                }),
            decreases 0x4_0000_0000_0000_0000int - start,
        {
            let e = found.unwrap();
            let ghost i = first_overlap_from(ivs, 0, start as int, sz)->0;
            proof {
                lemma_first_overlap_some(ivs, 0, start as int, sz);
                assert(is_canonical(ivs[i].spec_start() as int));
                lemma_visits_unfold(ivs, start as int, sz);
                assert(ivs[i].spec_end() <= 0x4_0000_0000_0000_0000int);
                assert(visits_canonical(ivs, ivs[i].spec_end(), sz));
            }
            start = virt_addr_add(e.start, e.size as u64);
            proof {
                assert(start == ivs[i].spec_end());
                lemma_visits_unfold(ivs, start as int, sz);
            }
            found = self.find_overlapping_element(start, size);
        }
        proof {
            self.lemma_no_overlap_found(start as int, sz);
        }
        let end = virt_addr_add(start, size as u64);
        let mem_end = virt_addr_add(self.mem_start, self.mem_size as u64);
        if end > mem_end {
            return Err(VmmError::OutOfMemory);
        }
        let interval = Interval { start, size };
        self.insert_interval(interval);
        Ok(OwnedInterval { interval })
    }

    /// Marks `addr` as reserved for `size` bytes, or reserves `size` bytes anywhere.
    pub fn resolve_map_at(&mut self, addr: MapAt, size: usize) -> (r: Result<OwnedInterval, VmmError>)
        requires
            old(self).wf(),
            match addr {
                MapAt::Fixed(a) => is_canonical(a as int) && is_canonical(a + size),
                MapAt::Anywhere => {
                    &&& align_up(size as int) <= usize::MAX
                    &&& is_canonical(old(self).spec_mem_start() + old(self).spec_mem_size())
                    &&& visits_canonical(
                        old(self)@,
                        old(self).spec_mem_start() as int,
                        align_up(size as int),
                    )
                    &&& is_canonical(
                        first_fit(old(self)@, old(self).spec_mem_start() as int, align_up(size as int))
                            + align_up(size as int),
                    )
                },
            },
        ensures
            final(self).wf(),
            match addr {
                MapAt::Fixed(a) => match first_overlap_from(old(self)@, 0, a as int, size as int) {
                    Some(_) => r == Err::<OwnedInterval, VmmError>(VmmError::AlreadyAllocated)
                        && final(self)@ == old(self)@,
                    None => r matches Ok(o) && o@.spec_start() == a && o@.spec_size() == size && (
                    forall|x: Interval|
                        #[trigger] final(self)@.contains(x) <==> (old(self)@.contains(x) || x
                            == o@)),
                },
                MapAt::Anywhere => {
                    let sz = align_up(size as int);
                    let s = first_fit(old(self)@, old(self).spec_mem_start() as int, sz);
                    if s + sz > old(self).spec_mem_start() + old(self).spec_mem_size() {
                        r == Err::<OwnedInterval, VmmError>(VmmError::OutOfMemory) && final(self)@
                            == old(self)@
                    } else {
                        r matches Ok(o) && o@.spec_start() == s && o@.spec_size() == sz && (forall|
                            x: Interval,
                        |
                            #[trigger] final(self)@.contains(x) <==> (old(self)@.contains(x) || x
                                == o@))
                    }
                },
            },
    {
        match addr {
            MapAt::Fixed(a) => {
                let interval = Interval::new(a, size);
                self.mark_as_reserved(interval)
            },
            MapAt::Anywhere => self.reserve(size),
        }
    }
}

/// Releasing an interval right after marking it reserved leaves the reserved intervals as
/// they were, when it was not reserved before.
pub proof fn lemma_release_undoes_mark(before: Seq<Interval>, marked: Seq<Interval>, after: Seq<Interval>, iv: Interval)
    requires
        !before.contains(iv),
        forall|x: Interval| #[trigger] marked.contains(x) <==> (before.contains(x) || x == iv),
        forall|x: Interval| #[trigger] after.contains(x) <==> (marked.contains(x) && x != iv),
    ensures
        forall|x: Interval| #[trigger] after.contains(x) <==> before.contains(x),
{
    assert forall|x: Interval| #[trigger] after.contains(x) <==> before.contains(x) by {
        if after.contains(x) {
            assert(marked.contains(x));
        }
        if before.contains(x) {
            assert(marked.contains(x));
        }
    }
}

} // verus!
