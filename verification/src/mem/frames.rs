//! The 4 KiB frames of physical address ranges.
use vstd::prelude::*;

verus! {

/// The size of a 4 KiB frame.
pub const FRAME_SIZE: u64 = 4096;

/// The number of frame addresses that stepping by 4096 from `lo` visits below `hi`.
pub open spec fn range_len(lo: int, hi: int) -> int {
    if hi > lo {
        (hi - lo + 4095) / 4096
    } else {
        0
    }
}

/// The addresses `lo, lo + 4096, lo + 8192, ...` below `hi`.
pub open spec fn range_addrs(lo: int, hi: int) -> Seq<int> {
    Seq::new(range_len(lo, hi) as nat, |j: int| lo + 4096 * j)
}

/// The addresses of all ranges, one range after the other.
pub open spec fn ranges_addrs(rs: Seq<(u64, u64)>) -> Seq<int>
    decreases rs.len(),
{
    if rs.len() == 0 {
        Seq::empty()
    } else {
        ranges_addrs(rs.drop_last()) + range_addrs(rs.last().0 as int, rs.last().1 as int)
    }
}

/// The start address of the frame that contains `addr`.
pub open spec fn frame_start(addr: int) -> int {
    addr - addr % 4096
}

/// Extending the ranges by one range extends their addresses by that range's.
pub proof fn lemma_ranges_addrs_take(rs: Seq<(u64, u64)>, r: int)
    requires
        0 <= r < rs.len(),
    ensures
        ranges_addrs(rs.take(r + 1)) == ranges_addrs(rs.take(r)) + range_addrs(
            rs[r].0 as int,
            rs[r].1 as int,
        ),
{
    assert(rs.take(r + 1).drop_last() =~= rs.take(r));
}

/// The address at position `j` of the ranges' addresses lies inside one of the ranges:
/// the one at the returned position.
pub proof fn lemma_ranges_addrs_within(rs: Seq<(u64, u64)>, j: int) -> (i: int)
    requires
        0 <= j < ranges_addrs(rs).len(),
    ensures
        0 <= i < rs.len(),
        rs[i].0 <= ranges_addrs(rs)[j] < rs[i].1,
    decreases rs.len(),
{
    let p = ranges_addrs(rs.drop_last());
    let (lo, hi) = rs.last();
    let q = range_addrs(lo as int, hi as int);
    if j < p.len() {
        let i = lemma_ranges_addrs_within(rs.drop_last(), j);
        assert(rs.drop_last()[i] == rs[i]);
        i
    } else {
        let m = j - p.len();
        assert(ranges_addrs(rs)[j] == q[m]);
        assert(lo + 4096 * m < hi) by (nonlinear_arith)
            requires
                0 <= m < q.len(),
                q.len() == range_len(lo as int, hi as int),
                range_len(lo as int, hi as int) == if hi > lo { (hi - lo + 4095) / 4096 } else { 0 },
        ;
        rs.len() - 1
    }
}

/// Every address of the ranges lies within the range it comes from, so it fits in a `u64`.
pub proof fn lemma_ranges_addrs_bounds(rs: Seq<(u64, u64)>)
    ensures
        forall|j: int| 0 <= j < ranges_addrs(rs).len() ==> 0 <= #[trigger] ranges_addrs(rs)[j] < u64::MAX,
    decreases rs.len(),
{
    if rs.len() > 0 {
        lemma_ranges_addrs_bounds(rs.drop_last());
        let p = ranges_addrs(rs.drop_last());
        let (lo, hi) = rs.last();
        let q = range_addrs(lo as int, hi as int);
        assert forall|j: int| 0 <= j < q.len() implies 0 <= #[trigger] q[j] < u64::MAX by {
            assert(lo + 4096 * j < hi) by (nonlinear_arith)
                requires
                    0 <= j < q.len(),
                    q.len() == (hi - lo + 4095) / 4096,
                    hi > lo,
            ;
        }
        assert forall|j: int| 0 <= j < ranges_addrs(rs).len() implies 0 <= #[trigger] ranges_addrs(rs)[j] < u64::MAX by {
            if j < p.len() {
                assert(ranges_addrs(rs)[j] == p[j]);
            } else {
                assert(ranges_addrs(rs)[j] == q[j - p.len()]);
            }
        }
    }
}

/// Returns `ranges_addrs(rs)[n]`, if there is such an address.
pub fn nth_addr(rs: &Vec<(u64, u64)>, n: usize) -> (r: Option<u64>)
    ensures
        n < ranges_addrs(rs@).len() ==> (r matches Some(a) && a as int == ranges_addrs(rs@)[n as int]),
        n >= ranges_addrs(rs@).len() ==> r is None,
{
    proof {
        lemma_ranges_addrs_bounds(rs@);
    }
    let mut k: usize = 0;
    let mut skipped: usize = 0;
    while k < rs.len()
        invariant
            k <= rs@.len(),
            skipped == ranges_addrs(rs@.take(k as int)).len(),
            skipped <= n,
        decreases rs@.len() - k,
    {
        proof {
            lemma_ranges_addrs_take(rs@, k as int);
        }
        let (lo, hi) = rs[k];
        let count: u64 = if hi > lo {
            (hi - lo) / 4096 + if (hi - lo) % 4096 == 0 { 0 } else { 1 }
        } else {
            0
        };
        assert(count == range_len(lo as int, hi as int));
        let j = (n - skipped) as u64;
        if j < count {
            assert(lo as int + 4096 * j < hi) by (nonlinear_arith)
                requires
                    j < count,
                    count == (hi - lo + 4095) / 4096,
                    hi > lo,
            ;
            let a = lo + 4096 * j;
            proof {
                let p = ranges_addrs(rs@.take(k as int));
                let q = p + range_addrs(lo as int, hi as int);
                assert(q[n as int] == lo + 4096 * j);
                lemma_ranges_addrs_prefix(rs@, k as int + 1);
                assert(rs@.take(k as int + 1) == rs@.take(k as int + 1));
                assert(ranges_addrs(rs@)[n as int] == q[n as int]);
            }
            return Some(a);
        }
        skipped = skipped + count as usize;
        k = k + 1;
    }
    assert(rs@.take(rs@.len() as int) =~= rs@);
    None
}

/// The addresses of a prefix of the ranges are a prefix of all their addresses.
pub proof fn lemma_ranges_addrs_prefix(rs: Seq<(u64, u64)>, k: int)
    requires
        0 <= k <= rs.len(),
    ensures
        ranges_addrs(rs.take(k)).len() <= ranges_addrs(rs).len(),
        forall|i: int|
            0 <= i < ranges_addrs(rs.take(k)).len() ==> #[trigger] ranges_addrs(rs)[i]
                == ranges_addrs(rs.take(k))[i],
    decreases rs.len() - k,
{
    if k < rs.len() {
        lemma_ranges_addrs_prefix(rs, k + 1);
        lemma_ranges_addrs_take(rs, k);
    } else {
        assert(rs.take(k) =~= rs);
    }
}

/// The smaller of `x` and `hi`.
pub open spec fn clamp(x: int, hi: int) -> int {
    if x < hi {
        x
    } else {
        hi
    }
}

/// The frame with index `k` contains one of the addresses of `addrs`.
pub open spec fn covers(addrs: Seq<int>, k: int) -> bool {
    exists|j: int| 0 <= j < addrs.len() && #[trigger] addrs[j] / 4096 == k
}

/// The addresses at positions `from` (inclusive) to `limit` (exclusive) of `addrs`,
/// as far as there are any.
pub open spec fn addrs_between(addrs: Seq<int>, from: int, limit: int) -> Seq<int> {
    let to = clamp(limit, addrs.len() as int);
    addrs.subrange(clamp(from, to), to)
}

/// Sets the frames that contain the addresses at positions `from` to `limit` of the
/// ranges' addresses to `state`.
pub fn mark_frames<S: Copy>(rs: &Vec<(u64, u64)>, frames: &mut Vec<S>, from: usize, limit: usize, state: S)
    requires
        forall|j: int| 0 <= j < ranges_addrs(rs@).len() ==> #[trigger] ranges_addrs(rs@)[j] / 4096 < old(frames).len(),
    ensures
        final(frames)@.len() == old(frames)@.len(),
        forall|c: int| 0 <= c < old(frames)@.len() ==> #[trigger] final(frames)@[c] == (if covers(addrs_between(ranges_addrs(rs@), from as int, limit as int), c) {
            state
        } else {
            old(frames)@[c]
        }),
{
    let ghost addrs = ranges_addrs(rs@);
    let ghost old_frames = frames@;
    let mut pos: usize = 0;
    let mut i: usize = 0;
    while i < rs.len() && pos < limit
        invariant
            i <= rs@.len(),
            addrs == ranges_addrs(rs@),
            forall|j: int| 0 <= j < addrs.len() ==> #[trigger] addrs[j] / 4096 < old_frames.len(),
            frames@.len() == old_frames.len(),
            old_frames == old(frames)@,
            pos <= limit,
            pos == ranges_addrs(rs@.take(i as int)).len(),
            ranges_addrs(rs@.take(i as int)).len() <= addrs.len(),
            forall|c: int| 0 <= c < old_frames.len() ==> #[trigger] frames@[c] == (if covers(addrs.subrange(clamp(from as int, pos as int), pos as int), c) {
                state
            } else {
                old_frames[c]
            }),
        decreases rs@.len() - i,
    {
        proof {
            lemma_ranges_addrs_take(rs@, i as int);
            lemma_ranges_addrs_prefix(rs@, i as int + 1);
        }
        let (lo, hi) = rs[i];
        let count: u64 = if hi > lo {
            (hi - lo) / 4096 + if (hi - lo) % 4096 == 0 { 0 } else { 1 }
        } else {
            0
        };
        assert(count == range_addrs(lo as int, hi as int).len());
        let mut t: u64 = 0;
        while t < count && pos < limit
            invariant
                i < rs@.len(),
                rs@[i as int] == (lo, hi),
                addrs == ranges_addrs(rs@),
                forall|j: int| 0 <= j < addrs.len() ==> #[trigger] addrs[j] / 4096 < old_frames.len(),
                frames@.len() == old_frames.len(),
                old_frames == old(frames)@,
                count == range_addrs(lo as int, hi as int).len(),
                t <= count,
                pos == ranges_addrs(rs@.take(i as int)).len() + t,
                pos <= limit,
                ranges_addrs(rs@.take(i as int + 1)) == ranges_addrs(rs@.take(i as int)) + range_addrs(lo as int, hi as int),
                forall|m: int| 0 <= m < ranges_addrs(rs@.take(i as int + 1)).len() ==> #[trigger] addrs[m] == ranges_addrs(rs@.take(i as int + 1))[m],
                ranges_addrs(rs@.take(i as int + 1)).len() <= addrs.len(),
                forall|c: int| 0 <= c < old_frames.len() ==> #[trigger] frames@[c] == (if covers(addrs.subrange(clamp(from as int, pos as int), pos as int), c) {
                    state
                } else {
                    old_frames[c]
                }),
            decreases count - t,
        {
            assert(lo + 4096 * t < hi) by (nonlinear_arith)
                requires
                    t < count,
                    count == (hi - lo + 4095) / 4096,
                    hi > lo,
            ;
            let addr = lo + 4096 * t;
            assert(addrs[pos as int] == addr) by {
                assert(ranges_addrs(rs@.take(i as int + 1))[pos as int] == addr);
            }
            let ghost p = addrs.subrange(clamp(from as int, pos as int), pos as int);
            let ghost p1 = addrs.subrange(clamp(from as int, pos + 1), pos + 1);
            if pos >= from {
                assert(addr / 4096 < old_frames.len());
                let flen = frames.len();
                let index = (addr / 4096) as usize;
                assert(index as int == addr as int / 4096);
                frames.set(index, state);
                proof {
                    assert(p1 =~= p.push(addr as int));
                    assert(p1[p1.len() - 1] == addr);
                    assert forall|c: int| 0 <= c < old_frames.len() implies #[trigger] frames@[c] == (if covers(p1, c) {
                        state
                    } else {
                        old_frames[c]
                    }) by {
                        if c == index {
                            assert(p1[p1.len() - 1] / 4096 == c);
                        } else {
                            if covers(p1, c) {
                                let j = choose|j: int| 0 <= j < p1.len() && #[trigger] p1[j] / 4096 == c;
                                assert(p1[p1.len() - 1] / 4096 == index as int);
                                assert(j != p1.len() - 1);
                                assert(p[j] / 4096 == c);
                            }
                            if covers(p, c) {
                                let j = choose|j: int| 0 <= j < p.len() && #[trigger] p[j] / 4096 == c;
                                assert(p1[j] / 4096 == c);
                            }
                        }
                    }
                }
            } else {
                proof {
                    assert(p =~= Seq::<int>::empty());
                    assert(p1 =~= Seq::<int>::empty());
                }
            }
            pos = pos + 1;
            t = t + 1;
        }
        proof {
            if pos < limit {
                assert(t == count);
                assert(pos == ranges_addrs(rs@.take(i as int + 1)).len());
            }
        }
        if pos < limit {
            i = i + 1;
        } else {
            proof {
                // the limit is reached: the remaining ranges do not matter
                lemma_ranges_addrs_prefix(rs@, i as int);
            }
            assert(pos as int == clamp(limit as int, addrs.len() as int)) by {
                lemma_ranges_addrs_prefix(rs@, i as int + 1);
            }
            assert(addrs.subrange(clamp(from as int, pos as int), pos as int) == addrs_between(addrs, from as int, limit as int));
            return;
        }
    }
    proof {
        if pos < limit {
            assert(rs@.take(rs@.len() as int) =~= rs@);
            assert(pos as int == addrs.len());
        }
        assert(pos as int == clamp(limit as int, addrs.len() as int));
    }
}

} // verus!
