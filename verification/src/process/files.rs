//! The open files of a process: its file descriptors by number, the numbers it hands
//! out, and the lowest free number of a descriptor table.
use vstd::prelude::*;
use std::collections::BTreeMap;
use crate::process::fd::{FileDescriptor, Fileno, FilenoAllocator};

verus! {

broadcast use vstd::std_specs::btree::group_btree_axioms;

/// The error of a file operation.
#[derive(Debug, PartialEq, Eq)]
pub enum FileError<E> {
    /// No file is open under the number.
    HandleClosed,
    /// The file system failed.
    Fs(E),
}

/// The open files of a process.
pub struct OpenFiles<N> {
    next_fd: FilenoAllocator,
    open_fds: BTreeMap<usize, FileDescriptor<N>>,
}

impl<N> OpenFiles<N> {
    /// The descriptors by number.
    pub closed spec fn spec_fds(&self) -> Map<usize, FileDescriptor<N>> {
        self.open_fds@
    }

    /// The number that the next opened file gets.
    pub closed spec fn spec_next(&self) -> usize {
        self.next_fd.spec_next()
    }

    /// No open file, and numbers from 0 on.
    pub fn new() -> (r: Self)
        ensures
            r.spec_fds() == Map::<usize, FileDescriptor<N>>::empty(),
            r.spec_next() == 0,
    {
        OpenFiles { next_fd: FilenoAllocator::new(), open_fds: BTreeMap::new() }
    }

    /// Hands out the next file number.
    pub fn allocate_fileno(&mut self) -> (r: Fileno)
        ensures
            r.0 == old(self).spec_next(),
            final(self).spec_next() == if old(self).spec_next() == usize::MAX {
                0
            } else {
                (old(self).spec_next() + 1) as usize
            },
            final(self).spec_fds() == old(self).spec_fds(),
    {
        self.next_fd.next()
    }

    /// Opens `node` under the next file number, at offset 0, and returns the number.
    pub fn get_fileno_for(&mut self, node: N) -> (r: Fileno)
        ensures
            r.0 == old(self).spec_next(),
            final(self).spec_next() == if old(self).spec_next() == usize::MAX {
                0
            } else {
                (old(self).spec_next() + 1) as usize
            },
            final(self).spec_fds().dom() == old(self).spec_fds().dom().insert(r.0),
            final(self).spec_fds()[r.0].spec_node() == node,
            final(self).spec_fds()[r.0].spec_offset() == 0,
            forall|k: usize| k != r.0 && old(self).spec_fds().contains_key(k) ==> #[trigger] final(self).spec_fds()[k] == old(self).spec_fds()[k],
    {
        let fd = self.allocate_fileno();
        self.open_fds.insert(fd.0, FileDescriptor::new(node));
        fd
    }

    /// How many files are open.
    pub fn open_count(&self) -> (r: usize)
        ensures
            r == self.spec_fds().dom().len(),
    {
        self.open_fds.len()
    }

    /// The numbers of the open files, in increasing order, each once.
    pub fn open_filenos(&self) -> (r: Vec<usize>)
        ensures
            r@.to_set() == self.spec_fds().dom(),
            r@.no_duplicates(),
    {
        proof {
            broadcast use vstd::laws_cmp::group_laws_cmp;
            broadcast use vstd::std_specs::btree::axiom_key_obeys_cmp_spec_meaning;
            broadcast use vstd::std_specs::btree::axiom_spec_keys_iter;
            assert(vstd::std_specs::btree::key_obeys_cmp_spec::<usize>());
        }
        let ghost dom = self.open_fds@.dom();
        let mut r: Vec<usize> = Vec::new();
        for k in it: self.open_fds.keys()
            invariant
                it.seq().unref().to_set() == dom,
                it.seq().unref().no_duplicates(),
                r@ == it.seq().unref().take(it.index()),
                it.index() == it.seq().len() ==> r@ == it.seq().unref(),
        {
            r.push(*k);
            assert(r@ =~= it.seq().unref().take(it.index() + 1));
        }
        r
    }

    /// The descriptor open under `fileno`.
    pub fn descriptor(&self, fileno: Fileno) -> (r: Option<&FileDescriptor<N>>)
        ensures
            match r {
                Some(d) => self.spec_fds().contains_key(fileno.0) && *d == self.spec_fds()[fileno.0],
                None => !self.spec_fds().contains_key(fileno.0),
            },
    {
        self.open_fds.get(&fileno.0)
    }

    /// Completes a read on the file open under `fileno` with the file system's answer:
    /// `HandleClosed` if none is open, otherwise the answer, and the descriptor's offset
    /// moves on by the bytes read.
    pub fn read<E>(&mut self, fileno: Fileno, outcome: Result<usize, E>) -> (r: Result<usize, FileError<E>>)
        requires
            old(self).spec_fds().contains_key(fileno.0) ==> (outcome matches Ok(n) ==> old(self).spec_fds()[fileno.0].spec_offset() + n <= usize::MAX),
        ensures
            final(self).spec_next() == old(self).spec_next(),
            !old(self).spec_fds().contains_key(fileno.0) ==> r == Err::<usize, FileError<E>>(FileError::HandleClosed) && final(self).spec_fds() == old(self).spec_fds(),
            old(self).spec_fds().contains_key(fileno.0) ==> {
                let d = old(self).spec_fds()[fileno.0];
                &&& r == match outcome {
                    Ok(n) => Ok::<usize, FileError<E>>(n),
                    Err(e) => Err(FileError::Fs(e)),
                }
                &&& final(self).spec_fds().dom() == old(self).spec_fds().dom()
                &&& final(self).spec_fds()[fileno.0].spec_node() == d.spec_node()
                &&& final(self).spec_fds()[fileno.0].spec_offset() == match outcome {
                    Ok(n) => (d.spec_offset() + n) as usize,
                    Err(_) => d.spec_offset(),
                }
                &&& forall|k: usize| k != fileno.0 && old(self).spec_fds().contains_key(k) ==> #[trigger] final(self).spec_fds()[k] == old(self).spec_fds()[k]
            },
    {
        self.complete(fileno, outcome)
    }

    /// Completes a write on the file open under `fileno` with the file system's answer:
    /// `HandleClosed` if none is open, otherwise the answer, and the descriptor's offset
    /// moves on by the bytes written.
    pub fn write<E>(&mut self, fileno: Fileno, outcome: Result<usize, E>) -> (r: Result<usize, FileError<E>>)
        requires
            old(self).spec_fds().contains_key(fileno.0) ==> (outcome matches Ok(n) ==> old(self).spec_fds()[fileno.0].spec_offset() + n <= usize::MAX),
        ensures
            final(self).spec_next() == old(self).spec_next(),
            !old(self).spec_fds().contains_key(fileno.0) ==> r == Err::<usize, FileError<E>>(FileError::HandleClosed) && final(self).spec_fds() == old(self).spec_fds(),
            old(self).spec_fds().contains_key(fileno.0) ==> {
                let d = old(self).spec_fds()[fileno.0];
                &&& r == match outcome {
                    Ok(n) => Ok::<usize, FileError<E>>(n),
                    Err(e) => Err(FileError::Fs(e)),
                }
                &&& final(self).spec_fds().dom() == old(self).spec_fds().dom()
                &&& final(self).spec_fds()[fileno.0].spec_node() == d.spec_node()
                &&& final(self).spec_fds()[fileno.0].spec_offset() == match outcome {
                    Ok(n) => (d.spec_offset() + n) as usize,
                    Err(_) => d.spec_offset(),
                }
                &&& forall|k: usize| k != fileno.0 && old(self).spec_fds().contains_key(k) ==> #[trigger] final(self).spec_fds()[k] == old(self).spec_fds()[k]
            },
    {
        self.complete(fileno, outcome)
    }

    fn complete<E>(&mut self, fileno: Fileno, outcome: Result<usize, E>) -> (r: Result<usize, FileError<E>>)
        requires
            old(self).spec_fds().contains_key(fileno.0) ==> (outcome matches Ok(n) ==> old(self).spec_fds()[fileno.0].spec_offset() + n <= usize::MAX),
        ensures
            final(self).spec_next() == old(self).spec_next(),
            !old(self).spec_fds().contains_key(fileno.0) ==> r == Err::<usize, FileError<E>>(FileError::HandleClosed) && final(self).spec_fds() == old(self).spec_fds(),
            old(self).spec_fds().contains_key(fileno.0) ==> {
                let d = old(self).spec_fds()[fileno.0];
                &&& r == match outcome {
                    Ok(n) => Ok::<usize, FileError<E>>(n),
                    Err(e) => Err(FileError::Fs(e)),
                }
                &&& final(self).spec_fds().dom() == old(self).spec_fds().dom()
                &&& final(self).spec_fds()[fileno.0].spec_node() == d.spec_node()
                &&& final(self).spec_fds()[fileno.0].spec_offset() == match outcome {
                    Ok(n) => (d.spec_offset() + n) as usize,
                    Err(_) => d.spec_offset(),
                }
                &&& forall|k: usize| k != fileno.0 && old(self).spec_fds().contains_key(k) ==> #[trigger] final(self).spec_fds()[k] == old(self).spec_fds()[k]
            },
    {
        match self.open_fds.remove(&fileno.0) {
            None => Err(FileError::HandleClosed),
            Some(mut d) => {
                let res = d.read(outcome);
                self.open_fds.insert(fileno.0, d);
                proof {
                    assert(self.open_fds@.dom() =~= old(self).open_fds@.dom());
                }
                match res {
                    Ok(n) => Ok(n),
                    Err(e) => Err(FileError::Fs(e)),
                }
            },
        }
    }

    /// Closes the file open under `fileno` and hands back its node; `HandleClosed` if
    /// none is open.
    pub fn close_fd(&mut self, fileno: Fileno) -> (r: Result<N, FileError<()>>)
        ensures
            final(self).spec_next() == old(self).spec_next(),
            final(self).spec_fds() == old(self).spec_fds().remove(fileno.0),
            match r {
                Ok(node) => old(self).spec_fds().contains_key(fileno.0) && node == old(self).spec_fds()[fileno.0].spec_node(),
                Err(e) => !old(self).spec_fds().contains_key(fileno.0) && e == FileError::<()>::HandleClosed,
            },
    {
        match self.open_fds.remove(&fileno.0) {
            Some(d) => Ok(d.into_node()),
            None => Err(FileError::HandleClosed),
        }
    }
}

/// The number that counting up from 0 along `keys` reaches: each key equal to the count
/// so far moves it on by one.
pub open spec fn fold_free(keys: Seq<i32>) -> int
    decreases keys.len(),
{
    if keys.len() == 0 {
        0
    } else {
        let acc = fold_free(keys.drop_last());
        if acc == keys.last() {
            acc + 1
        } else {
            acc
        }
    }
}

/// The count along the keys never exceeds their number.
pub proof fn lemma_fold_free_bound(keys: Seq<i32>)
    ensures
        0 <= fold_free(keys) <= keys.len(),
    decreases keys.len(),
{
    if keys.len() > 0 {
        lemma_fold_free_bound(keys.drop_last());
    }
}

/// The number for a newly opened file, given the numbers in use in ascending order:
/// counting up from 0 along them.
pub fn lowest_free_fd(keys: &Vec<i32>) -> (r: i32)
    requires
        keys.len() < i32::MAX,
    ensures
        r == fold_free(keys@),
{
    let mut acc: i32 = 0;
    let mut i: usize = 0;
    while i < keys.len()
        invariant
            i <= keys.len(),
            keys.len() < i32::MAX,
            acc == fold_free(keys@.take(i as int)),
        decreases keys.len() - i,
    {
        proof {
            lemma_fold_free_bound(keys@.take(i as int));
            assert(keys@.take(i + 1).drop_last() =~= keys@.take(i as int));
        }
        if acc == keys[i] {
            acc = acc + 1;
        }
        i = i + 1;
    }
    proof {
        assert(keys@.take(i as int) =~= keys@);
    }
    acc
}

/// Along keys that ascend strictly from 0 or more, the count stops at the first key that
/// differs from its position: every key before it equals its position, and that key (if
/// there is one) lies above the count.
proof fn lemma_fold_free_prefix(keys: Seq<i32>)
    requires
        forall|i: int, j: int| 0 <= i < j < keys.len() ==> keys[i] < keys[j],
        forall|i: int| 0 <= i < keys.len() ==> 0 <= #[trigger] keys[i],
    ensures
        fold_free(keys) <= keys.len(),
        forall|i: int| 0 <= i < fold_free(keys) ==> #[trigger] keys[i] == i,
        fold_free(keys) < keys.len() ==> keys[fold_free(keys)] > fold_free(keys),
    decreases keys.len(),
{
    if keys.len() > 0 {
        let init = keys.drop_last();
        lemma_fold_free_prefix(init);
        lemma_fold_free_bound(init);
        let acc = fold_free(init);
        let n = init.len() as int;
        let last = keys[n];
        if acc == n {
            if n > 0 {
                assert(keys[n - 1] == init[n - 1]);
                assert(keys[n - 1] < last);
            }
            assert forall|i: int| 0 <= i < fold_free(keys) implies #[trigger] keys[i] == i by {
                if i < n {
                    assert(init[i] == keys[i]);
                }
            }
        } else {
            assert(init[acc] == keys[acc]);
            assert(keys[acc] < last);
            assert forall|i: int| 0 <= i < fold_free(keys) implies #[trigger] keys[i] == i by {
                assert(init[i] == keys[i]);
            }
        }
    }
}

/// For numbers in use that ascend strictly from 0 or more, the count is the lowest number
/// not in use: it is free, and every number below it is taken.
pub proof fn lemma_fold_free_is_lowest_free(keys: Seq<i32>)
    requires
        forall|i: int, j: int| 0 <= i < j < keys.len() ==> keys[i] < keys[j],
        forall|i: int| 0 <= i < keys.len() ==> 0 <= #[trigger] keys[i],
    ensures
        forall|i: int| 0 <= i < keys.len() ==> #[trigger] keys[i] != fold_free(keys),
        forall|v: int| 0 <= v < fold_free(keys) ==> #[trigger] keys.contains(v as i32),
{
    lemma_fold_free_prefix(keys);
    lemma_fold_free_bound(keys);
    let f = fold_free(keys);
    assert forall|i: int| 0 <= i < keys.len() implies #[trigger] keys[i] != f by {
        if i >= f {
            if i > f {
                assert(keys[f] < keys[i]);
            }
        }
    }
    assert forall|v: int| 0 <= v < f implies #[trigger] keys.contains(v as i32) by {
        assert(keys[v] == v);
    }
}

} // verus!
