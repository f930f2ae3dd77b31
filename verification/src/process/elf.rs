//! The image that an ELF executable is loaded into: one buffer, indexed by the
//! segments' virtual addresses.
use vstd::prelude::*;

verus! {

/// A loadable segment header: where the segment starts and how many bytes it takes in
/// memory.
#[derive(Debug, Clone, Copy, PartialEq, Eq, Structural)]
pub struct LoadHeader {
    pub virtual_addr: u64,
    pub mem_size: u64,
}

/// The end of a segment in the image.
pub open spec fn required_size(h: LoadHeader) -> int {
    h.virtual_addr + h.mem_size
}

/// The image length after room was made for the first `n` headers, from `len` on.
pub open spec fn grown_len(len: int, headers: Seq<LoadHeader>) -> int
    decreases headers.len(),
{
    if headers.len() == 0 {
        len
    } else {
        let before = grown_len(len, headers.drop_last());
        let need = required_size(headers.last());
        if before < need {
            need
        } else {
            before
        }
    }
}

/// The grown length is the larger of the starting length and the highest end of a
/// segment: it reaches every segment's end and is one of them or the starting length.
pub proof fn lemma_grown_len_is_highest_end(len: int, headers: Seq<LoadHeader>)
    ensures
        len <= grown_len(len, headers),
        forall|i: int| 0 <= i < headers.len() ==> #[trigger] required_size(headers[i]) <= grown_len(len, headers),
        grown_len(len, headers) == len || exists|i: int| 0 <= i < headers.len() && grown_len(len, headers) == #[trigger] required_size(headers[i]),
    decreases headers.len(),
{
    if headers.len() > 0 {
        let rest = headers.drop_last();
        lemma_grown_len_is_highest_end(len, rest);
        assert forall|i: int| 0 <= i < headers.len() implies #[trigger] required_size(headers[i]) <= grown_len(len, headers) by {
            if i < rest.len() {
                assert(headers[i] == rest[i]);
            }
        }
        if grown_len(len, headers) != len {
            if grown_len(len, headers) == required_size(headers.last()) {
                assert(grown_len(len, headers) == required_size(headers[headers.len() - 1]));
            } else {
                let i = choose|i: int| 0 <= i < rest.len() && grown_len(len, rest) == #[trigger] required_size(rest[i]);
                assert(headers[i] == rest[i]);
            }
        }
    }
}

/// An image that starts empty (`new`), is made room for `headers` (`allocate`) and then
/// has `region` loaded at `base` (`load`) is as long as the highest segment end (0 if
/// there is no segment), holds `region` at `base` and zeros everywhere else. `empty`,
/// `allocated` and `loaded` are the image after each of the three calls, related as their
/// contracts state.
pub proof fn lemma_loaded_image(
    empty: Seq<u8>,
    headers: Seq<LoadHeader>,
    allocated: Seq<u8>,
    base: int,
    region: Seq<u8>,
    loaded: Seq<u8>,
)
    requires
        empty == Seq::<u8>::empty(),
        allocated.len() == grown_len(empty.len() as int, headers),
        allocated.subrange(0, empty.len() as int) == empty,
        forall|i: int| empty.len() <= i < allocated.len() ==> #[trigger] allocated[i] == 0,
        0 <= base,
        base + region.len() <= allocated.len(),
        loaded.len() == allocated.len(),
        forall|i: int| 0 <= i < allocated.len() ==> #[trigger] loaded[i] == if base <= i < base + region.len() {
            region[i - base]
        } else {
            allocated[i]
        },
    ensures
        loaded.len() == grown_len(0, headers),
        forall|i: int| 0 <= i < headers.len() ==> #[trigger] required_size(headers[i]) <= loaded.len(),
        loaded.len() == 0 || exists|i: int| 0 <= i < headers.len() && loaded.len() == #[trigger] required_size(headers[i]),
        forall|i: int| 0 <= i < region.len() ==> #[trigger] loaded[base + i] == region[i],
        forall|i: int| 0 <= i < loaded.len() && !(base <= i < base + region.len()) ==> #[trigger] loaded[i] == 0,
{
    lemma_grown_len_is_highest_end(0, headers);
    assert forall|i: int| 0 <= i < region.len() implies #[trigger] loaded[base + i] == region[i] by {
        assert(loaded[base + i] == region[base + i - base]);
    }
}

/// Collects the loaded segments of an ELF executable in one buffer.
#[derive(Debug)]
pub struct ElfLoader {
    data: Vec<u8>,
}

impl ElfLoader {
    pub closed spec fn view(&self) -> Seq<u8> {
        self.data@
    }

    /// An empty image.
    pub fn new() -> (r: Self)
        ensures
            r.view() == Seq::<u8>::empty(),
    {
        ElfLoader { data: Vec::new() }
    }

    /// The length of the image.
    pub fn len(&self) -> (r: usize)
        ensures
            r == self.view().len(),
    {
        self.data.len()
    }

    /// The image.
    pub fn into_inner(self) -> (r: Vec<u8>)
        ensures
            r@ == self.view(),
    {
        self.data
    }

    /// Makes the image long enough for every segment, filling what it adds with zeros.
    pub fn allocate(&mut self, headers: &Vec<LoadHeader>)
        requires
            forall|i: int| 0 <= i < headers.len() ==> #[trigger] required_size(headers@[i]) <= usize::MAX,
        ensures
            final(self).view().len() == grown_len(old(self).view().len() as int, headers@),
            final(self).view().subrange(0, old(self).view().len() as int) == old(self).view(),
            forall|i: int| old(self).view().len() <= i < final(self).view().len() ==> #[trigger] final(self).view()[i] == 0,
    {
        let ghost start = self.data@;
        let mut i: usize = 0;
        while i < headers.len()
            invariant
                i <= headers.len(),
                forall|j: int| 0 <= j < headers.len() ==> #[trigger] required_size(headers@[j]) <= usize::MAX,
                self.data@.len() == grown_len(start.len() as int, headers@.take(i as int)),
                self.data@.len() >= start.len(),
                self.data@.subrange(0, start.len() as int) == start,
                forall|k: int| start.len() <= k < self.data@.len() ==> #[trigger] self.data@[k] == 0,
            decreases headers.len() - i,
        {
            let h = headers[i];
            assert(required_size(headers@[i as int]) <= usize::MAX);
            let required = h.virtual_addr as usize + h.mem_size as usize;
            proof {
                assert(headers@.take(i + 1).drop_last() =~= headers@.take(i as int));
                assert(headers@.take(i + 1).last() == h);
            }
            if self.data.len() < required {
                let ghost before = self.data@;
                self.data.resize(required, 0);
                proof {
                    assert forall|k: int| start.len() <= k < self.data@.len() implies #[trigger] self.data@[k] == 0 by {
                        if k < before.len() {
                            assert(self.data@[k] == self.data@.subrange(0, before.len() as int)[k]);
                        }
                    }
                    assert(self.data@.subrange(0, start.len() as int) =~= before.subrange(0, start.len() as int)) by {
                        assert forall|k: int| 0 <= k < start.len() implies self.data@.subrange(0, start.len() as int)[k] == before[k] by {
                            assert(self.data@[k] == self.data@.subrange(0, before.len() as int)[k]);
                        }
                    }
                }
            }
            i = i + 1;
        }
        proof {
            assert(headers@.take(i as int) =~= headers@);
        }
    }

    /// Copies `region` into the image at offset `base`.
    pub fn load(&mut self, base: u64, region: &[u8])
        requires
            base + region@.len() <= old(self).view().len(),
        ensures
            final(self).view().len() == old(self).view().len(),
            forall|i: int| 0 <= i < old(self).view().len() ==> #[trigger] final(self).view()[i] == if base <= i < base + region@.len() {
                region@[i - base]
            } else {
                old(self).view()[i]
            },
    {
        let len = self.data.len();
        assert(base <= len);
        let start = base as usize;
        let mut k: usize = 0;
        while k < region.len()
            invariant
                k <= region@.len(),
                start == base,
                start + region@.len() <= self.data@.len(),
                self.data@.len() == old(self).view().len(),
                self.data@.len() <= usize::MAX,
                forall|i: int| 0 <= i < self.data@.len() ==> #[trigger] self.data@[i] == if start <= i < start + k {
                    region@[i - start]
                } else {
                    old(self).view()[i]
                },
            decreases region@.len() - k,
        {
            self.data.set(start + k, region[k]);
            k = k + 1;
        }
    }
}

} // verus!
