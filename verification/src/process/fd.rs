//! File numbers and open file descriptions of a process.
use vstd::prelude::*;

verus! {

/// The number under which a process knows an open file.
#[derive(Debug, Clone, Copy, PartialEq, Eq, Structural)]
pub struct Fileno(pub usize);

impl Fileno {
    pub fn new(value: usize) -> (r: Self)
        ensures
            r.0 == value,
    {
        Fileno(value)
    }

    pub fn as_usize(self) -> (r: usize)
        ensures
            r == self.0,
    {
        self.0
    }
}

impl From<Fileno> for usize {
    fn from(value: Fileno) -> (r: usize) {
        value.0
    }
}

impl vstd::std_specs::convert::FromSpecImpl<Fileno> for usize {
    open spec fn obeys_from_spec() -> bool {
        true
    }

    open spec fn from_spec(v: Fileno) -> usize {
        v.0
    }
}

/// Hands out file numbers in increasing order, starting at 0.
#[derive(Debug)]
pub struct FilenoAllocator {
    inner: usize,
}

impl FilenoAllocator {
    /// The number that the next call of `next` hands out.
    pub closed spec fn spec_next(&self) -> usize {
        self.inner
    }

    pub fn new() -> (r: Self)
        ensures
            r.spec_next() == 0,
    {
        FilenoAllocator { inner: 0 }
    }

    /// Hands out the next number; after the largest number it starts again at 0.
    pub fn next(&mut self) -> (r: Fileno)
        ensures
            r.0 == old(self).spec_next(),
            final(self).spec_next() == if old(self).spec_next() == usize::MAX {
                0
            } else {
                (old(self).spec_next() + 1) as usize
            },
    {
        let n = self.inner;
        self.inner = if n == usize::MAX {
            0
        } else {
            n + 1
        };
        Fileno(n)
    }
}

/// An open file: the node it refers to and the offset at which the next read or write
/// takes place.
#[derive(Debug)]
pub struct FileDescriptor<N> {
    node: N,
    offset: usize,
}

impl<N> FileDescriptor<N> {
    pub closed spec fn spec_node(&self) -> N {
        self.node
    }

    pub closed spec fn spec_offset(&self) -> usize {
        self.offset
    }

    /// A descriptor for `node`, at offset 0.
    pub fn new(node: N) -> (r: Self)
        ensures
            r.spec_node() == node,
            r.spec_offset() == 0,
    {
        FileDescriptor { node, offset: 0 }
    }

    pub fn into_node(self) -> (r: N)
        ensures
            r == self.spec_node(),
    {
        self.node
    }

    pub fn node(&self) -> (r: &N)
        ensures
            *r == self.spec_node(),
    {
        &self.node
    }

    /// The offset at which the next read or write takes place.
    pub fn offset(&self) -> (r: usize)
        ensures
            r == self.spec_offset(),
    {
        self.offset
    }

    /// Completes a read at the current offset with the file system's answer: the offset
    /// moves on by the number of bytes read; an error leaves it and is handed on.
    pub fn read<E>(&mut self, outcome: Result<usize, E>) -> (r: Result<usize, E>)
        requires
            outcome matches Ok(n) ==> old(self).spec_offset() + n <= usize::MAX,
        ensures
            r == outcome,
            final(self).spec_node() == old(self).spec_node(),
            final(self).spec_offset() == match outcome {
                Ok(n) => (old(self).spec_offset() + n) as usize,
                Err(_) => old(self).spec_offset(),
            },
    {
        self.advance(outcome)
    }

    /// Completes a write at the current offset with the file system's answer: the offset
    /// moves on by the number of bytes written; an error leaves it and is handed on.
    pub fn write<E>(&mut self, outcome: Result<usize, E>) -> (r: Result<usize, E>)
        requires
            outcome matches Ok(n) ==> old(self).spec_offset() + n <= usize::MAX,
        ensures
            r == outcome,
            final(self).spec_node() == old(self).spec_node(),
            final(self).spec_offset() == match outcome {
                Ok(n) => (old(self).spec_offset() + n) as usize,
                Err(_) => old(self).spec_offset(),
            },
    {
        self.advance(outcome)
    }

    fn advance<E>(&mut self, outcome: Result<usize, E>) -> (r: Result<usize, E>)
        requires
            outcome matches Ok(n) ==> old(self).spec_offset() + n <= usize::MAX,
        ensures
            r == outcome,
            final(self).spec_node() == old(self).spec_node(),
            final(self).spec_offset() == match outcome {
                Ok(n) => (old(self).spec_offset() + n) as usize,
                Err(_) => old(self).spec_offset(),
            },
    {
        match outcome {
            Ok(n) => {
                self.offset = self.offset + n;
                Ok(n)
            },
            Err(e) => Err(e),
        }
    }
}

/// Two successful reads (or writes) in a row move the offset on by the bytes of both.
pub proof fn lemma_offsets_add_up(offset: usize, n1: usize, n2: usize)
    requires
        offset + n1 + n2 <= usize::MAX,
    ensures
        ((offset + n1) as usize + n2) as usize == offset + n1 + n2,
{
}

/// A descriptor gives back the node it was made with however many reads and writes
/// came between: `states` are the descriptor after `new` and after each later call,
/// and each call keeps the node, as `read` and `write` state.
pub proof fn lemma_node_kept<N>(states: Seq<FileDescriptor<N>>, node: N)
    requires
        states.len() > 0,
        states[0].spec_node() == node,
        forall|i: int| 0 < i < states.len() ==> #[trigger] states[i].spec_node() == states[i - 1].spec_node(),
    ensures
        forall|i: int| 0 <= i < states.len() ==> #[trigger] states[i].spec_node() == node,
    decreases states.len(),
{
    if states.len() > 1 {
        let shorter = states.drop_last();
        assert forall|i: int| 0 < i < shorter.len() implies #[trigger] shorter[i].spec_node() == shorter[i - 1].spec_node() by {
            assert(shorter[i] == states[i] && shorter[i - 1] == states[i - 1]);
        }
        lemma_node_kept(shorter, node);
        assert forall|i: int| 0 <= i < states.len() implies #[trigger] states[i].spec_node() == node by {
            if i < shorter.len() {
                assert(shorter[i] == states[i]);
            } else {
                assert(shorter[i - 1] == states[i - 1]);
            }
        }
    }
}

/// Claims `len` bytes of a shared file position: the read or write takes place at the
/// position as it was, and the position moves on by `len`, wrapping past the largest
/// value as an atomic add does. Returns the offset to use and the new position.
pub fn claim_position(position: u64, len: usize) -> (r: (u64, u64))
    ensures
        r.0 == position,
        r.1 == (position + len) % 0x1_0000_0000_0000_0000,
{
    let len64 = len as u64;
    let new = position.wrapping_add(len64);
    proof {
        assert(usize::MAX <= u64::MAX);
    }
    (position, new)
}

/// The number that an allocator holds after one call of `next` from `s`.
pub open spec fn next_fileno_state(s: usize) -> usize {
    if s == usize::MAX {
        0
    } else {
        (s + 1) as usize
    }
}

/// The numbers that one allocator hands out from `new` on, fewer than `usize::MAX` of
/// them, are 0, 1, 2, ... in turn: they strictly increase and none comes twice.
/// `states` are the allocator's next number after `new` and after each call, and
/// `handed` the numbers the calls returned, as `new` and `next` state them.
pub proof fn lemma_filenos_count_up(states: Seq<usize>, handed: Seq<usize>)
    requires
        states.len() == handed.len() + 1,
        handed.len() < usize::MAX,
        states[0] == 0,
        forall|i: int| 0 <= i < handed.len() ==> #[trigger] handed[i] == states[i],
        forall|i: int| 0 < i < states.len() ==> #[trigger] states[i] == next_fileno_state(states[i - 1]),
    ensures
        forall|i: int| 0 <= i < handed.len() ==> #[trigger] handed[i] == i,
        forall|i: int, j: int| 0 <= i < j < handed.len() ==> handed[i] < handed[j],
        states.last() == handed.len(),
    decreases handed.len(),
{
    if handed.len() > 0 {
        let s2 = states.drop_last();
        let h2 = handed.drop_last();
        assert forall|i: int| 0 <= i < h2.len() implies #[trigger] h2[i] == s2[i] by {
            assert(h2[i] == handed[i] && s2[i] == states[i]);
        }
        assert forall|i: int| 0 < i < s2.len() implies #[trigger] s2[i] == next_fileno_state(s2[i - 1]) by {
            assert(s2[i] == states[i] && s2[i - 1] == states[i - 1]);
        }
        lemma_filenos_count_up(s2, h2);
        assert(states[states.len() - 2] == h2.len());
        assert forall|i: int| 0 <= i < handed.len() implies #[trigger] handed[i] == i by {
            if i < h2.len() {
                assert(h2[i] == handed[i]);
            }
        }
    }
}

} // verus!
