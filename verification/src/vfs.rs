//! Walking a path through the directories of a file system, one component at a time:
//! which components are followed and how a name is found among a directory's entries;
//! and the table of a file system's open handles.
use vstd::prelude::*;
use vstd::string::StringSliceAdditionalSpecFns;
use crate::process::attributes::IdCounter;

verus! {

/// What a path component asks for.
#[derive(Debug, Clone, Copy, PartialEq, Eq, Structural)]
pub enum ComponentKind {
    /// `/`: the root.
    Root,
    /// `.`: the directory itself.
    Current,
    /// `..`: the parent directory.
    Parent,
    /// Any other name: an entry of the directory.
    Name,
}

/// Whether two byte strings are equal.
pub fn bytes_eq(a: &[u8], b: &[u8]) -> (r: bool)
    ensures
        r == (a@ == b@),
{
    if a.len() != b.len() {
        return false;
    }
    let mut i: usize = 0;
    while i < a.len()
        invariant
            a@.len() == b@.len(),
            i <= a@.len(),
            forall|j: int| 0 <= j < i ==> a@[j] == b@[j],
        decreases a@.len() - i,
    {
        if a[i] != b[i] {
            return false;
        }
        i = i + 1;
    }
    assert(a@ =~= b@);
    true
}

/// Whether two strings are equal.
pub fn str_eq(a: &str, b: &str) -> (r: bool)
    ensures
        r == (a@ == b@),
{
    let r = bytes_eq(a.as_bytes(), b.as_bytes());
    proof {
        vstd::utf8::encode_utf8_decode_utf8(a@);
        vstd::utf8::encode_utf8_decode_utf8(b@);
    }
    r
}

/// The kind of a component given by its bytes.
pub open spec fn kind_of(bytes: Seq<u8>) -> ComponentKind {
    if bytes == seq![47u8] {
        ComponentKind::Root
    } else if bytes == seq![46u8] {
        ComponentKind::Current
    } else if bytes == seq![46u8, 46u8] {
        ComponentKind::Parent
    } else {
        ComponentKind::Name
    }
}

/// What the path component `component` asks for.
pub fn component_kind(component: &str) -> (r: ComponentKind)
    ensures
        r == kind_of(component.spec_bytes()),
{
    let b = component.as_bytes();
    if b.len() == 1 && b[0] == 47 {
        assert(b@ =~= seq![47u8]);
        ComponentKind::Root
    } else if b.len() == 1 && b[0] == 46 {
        assert(b@ =~= seq![46u8]);
        ComponentKind::Current
    } else if b.len() == 2 && b[0] == 46 && b[1] == 46 {
        assert(b@ =~= seq![46u8, 46u8]);
        ComponentKind::Parent
    } else {
        proof {
            if b@ == seq![47u8] || b@ == seq![46u8] {
                assert(b@.len() == 1);
            }
            if b@ == seq![46u8, 46u8] {
                assert(b@.len() == 2 && b@[0] == 46 && b@[1] == 46);
            }
        }
        ComponentKind::Name
    }
}

/// The position of the first entry named `name` among a directory's entries, each
/// given by its name if it has one.
pub fn find_entry(names: &Vec<Option<String>>, name: &str) -> (r: Option<usize>)
    ensures
        match r {
            Some(i) => i < names@.len() && (names@[i as int] matches Some(n) && n@ == name@) && forall|j: int| 0 <= j < i ==> !(#[trigger] names@[j] matches Some(n) && n@ == name@),
            None => forall|j: int| 0 <= j < names@.len() ==> !(#[trigger] names@[j] matches Some(n) && n@ == name@),
        },
{
    let mut i: usize = 0;
    while i < names.len()
        invariant
            i <= names@.len(),
            forall|j: int| 0 <= j < i ==> !(#[trigger] names@[j] matches Some(n) && n@ == name@),
        decreases names@.len() - i,
    {
        match &names[i] {
            Some(n) => {
                if str_eq(n.as_str(), name) {
                    return Some(i);
                }
            },
            None => {},
        }
        i = i + 1;
    }
    None
}

/// Why a handle could not be closed.
#[derive(Debug, Clone, Copy, PartialEq, Eq, Structural)]
pub enum CloseError {
    /// No file is open under the handle.
    NotOpen,
}

/// An open handle: its number, the path it was opened with, and the inode it refers to.
#[derive(Debug)]
pub struct OpenHandle {
    pub handle: u64,
    pub path: String,
    pub inode: u64,
}

/// The open handles of a file system. Every handle is listed once, and handles opened
/// with the same path share one inode.
#[derive(Debug)]
pub struct HandleTable {
    handles: Vec<OpenHandle>,
}

/// The handles of the entries, in order.
pub open spec fn handle_of(e: OpenHandle) -> u64 {
    e.handle
}

impl HandleTable {
    /// The open handles, in the order in which they were opened.
    pub closed spec fn view(&self) -> Seq<(u64, Seq<char>, u64)> {
        self.handles@.map_values(|e: OpenHandle| (e.handle, e.path@, e.inode))
    }

    /// No handle is listed twice, and equal paths share their inode.
    pub open spec fn wf(&self) -> bool {
        &&& forall|i: int, j: int| 0 <= i < j < self@.len() ==> #[trigger] self@[i].0 != #[trigger] self@[j].0
        &&& forall|i: int, j: int| 0 <= i < self@.len() && 0 <= j < self@.len() && #[trigger] self@[i].1 == #[trigger] self@[j].1 ==> self@[i].2 == self@[j].2
    }

    /// Whether `handle` is open.
    pub open spec fn is_open(&self, handle: u64) -> bool {
        exists|i: int| 0 <= i < self@.len() && #[trigger] self@[i].0 == handle
    }

    /// The inode that `handle` refers to, if it is open.
    pub open spec fn inode_at(&self, handle: u64) -> Option<u64> {
        if self.is_open(handle) {
            Some(self@[choose|i: int| 0 <= i < self@.len() && #[trigger] self@[i].0 == handle].2)
        } else {
            None
        }
    }

    /// The inode that some handle opened with `path` refers to, if there is one.
    pub open spec fn inode_for(&self, path: Seq<char>) -> Option<u64> {
        if exists|i: int| 0 <= i < self@.len() && #[trigger] self@[i].1 == path {
            Some(self@[choose|i: int| 0 <= i < self@.len() && #[trigger] self@[i].1 == path].2)
        } else {
            None
        }
    }

    /// No open handle.
    pub fn new() -> (r: Self)
        ensures
            r.wf(),
            r@ == Seq::<(u64, Seq<char>, u64)>::empty(),
    {
        let r = HandleTable { handles: Vec::new() };
        assert(r@ =~= Seq::<(u64, Seq<char>, u64)>::empty());
        r
    }

    /// The position of the entry of `handle`, if it is open.
    fn position_of(&self, handle: u64) -> (r: Option<usize>)
        ensures
            match r {
                Some(i) => i < self@.len() && self@[i as int].0 == handle,
                None => !self.is_open(handle),
            },
    {
        let mut i: usize = 0;
        while i < self.handles.len()
            invariant
                i <= self@.len(),
                self@.len() == self.handles@.len(),
                forall|j: int| 0 <= j < i ==> #[trigger] self@[j].0 != handle,
            decreases self.handles@.len() - i,
        {
            if self.handles[i].handle == handle {
                return Some(i);
            }
            i = i + 1;
        }
        None
    }

    /// The inode that some open handle with `path` refers to, if there is one.
    pub fn find_path(&self, path: &str) -> (r: Option<u64>)
        requires
            self.wf(),
        ensures
            r == self.inode_for(path@),
    {
        let mut i: usize = 0;
        while i < self.handles.len()
            invariant
                i <= self@.len(),
                self@.len() == self.handles@.len(),
                self.wf(),
                forall|j: int| 0 <= j < i ==> #[trigger] self@[j].1 != path@,
            decreases self.handles@.len() - i,
        {
            if str_eq(self.handles[i].path.as_str(), path) {
                proof {
                    let k = choose|k: int| 0 <= k < self@.len() && #[trigger] self@[k].1 == path@;
                    assert(self@[i as int].1 == path@);
                    assert(self@[k].2 == self@[i as int].2);
                }
                return Some(self.handles[i].inode);
            }
            i = i + 1;
        }
        None
    }

    /// The inode that `handle` refers to, if it is open.
    pub fn inode_of(&self, handle: u64) -> (r: Option<u64>)
        requires
            self.wf(),
        ensures
            r == self.inode_at(handle),
    {
        match self.position_of(handle) {
            Some(i) => {
                proof {
                    let k = choose|k: int| 0 <= k < self@.len() && #[trigger] self@[k].0 == handle;
                    assert(k == i) by {
                        if k != i {
                            if k < i {
                                assert(self@[k].0 != self@[i as int].0);
                            } else {
                                assert(self@[i as int].0 != self@[k].0);
                            }
                        }
                    }
                }
                Some(self.handles[i].inode)
            },
            None => None,
        }
    }

    /// Opens `path` under a new handle from `counter`: it shares the inode of a handle
    /// already open with the same path, if there is one, and refers to `inode` otherwise.
    /// Returns the handle.
    pub fn open(&mut self, path: &str, inode: u64, counter: &mut IdCounter) -> (r: u64)
        requires
            old(self).wf(),
            !old(self).is_open(old(counter)@),
        ensures
            final(self).wf(),
            r == old(counter)@,
            final(self)@ == old(self)@.push((r, path@, match old(self).inode_for(path@) {
                Some(i) => i,
                None => inode,
            })),
            final(counter)@ == (if old(counter)@ == u64::MAX {
                0
            } else {
                old(counter)@ + 1
            }),
    {
        let shared = self.find_path(path);
        let inode = match shared {
            Some(i) => i,
            None => inode,
        };
        let handle = counter.next();
        let ghost before = self@;
        self.handles.push(OpenHandle { handle, path: path.to_string(), inode });
        proof {
            assert(self@ =~= before.push((handle, path@, inode)));
            let n = before.len() as int;
            assert forall|i: int, j: int| 0 <= i < j < self@.len() implies #[trigger] self@[i].0 != #[trigger] self@[j].0 by {
                if j == n {
                    assert(before[i].0 != handle);
                }
            }
            assert forall|i: int, j: int| 0 <= i < self@.len() && 0 <= j < self@.len() && #[trigger] self@[i].1 == #[trigger] self@[j].1 implies self@[i].2 == self@[j].2 by {
                if i == n && j < n {
                    assert(before[j].1 == path@);
                    let k = choose|k: int| 0 <= k < before.len() && #[trigger] before[k].1 == path@;
                    assert(before[k].2 == before[j].2);
                } else if j == n && i < n {
                    assert(before[i].1 == path@);
                    let k = choose|k: int| 0 <= k < before.len() && #[trigger] before[k].1 == path@;
                    assert(before[k].2 == before[i].2);
                }
            }
        }
        handle
    }

    /// Closes `handle`; `NotOpen` if it is not open.
    pub fn close(&mut self, handle: u64) -> (r: Result<(), CloseError>)
        requires
            old(self).wf(),
        ensures
            final(self).wf(),
            r is Ok <==> old(self).is_open(handle),
            r is Ok ==> exists|i: int| 0 <= i < old(self)@.len() && #[trigger] old(self)@[i].0 == handle && final(self)@ == old(self)@.remove(i),
            r is Err ==> final(self)@ == old(self)@,
            !final(self).is_open(handle),
            forall|h: u64| h != handle ==> (#[trigger] final(self).is_open(h) <==> old(self).is_open(h)),
            forall|h: u64| h != handle && old(self).is_open(h) ==> #[trigger] final(self).inode_at(h) == old(self).inode_at(h),
    {
        match self.position_of(handle) {
            None => Err(CloseError::NotOpen),
            Some(i) => {
                let ghost before = self@;
                self.handles.remove(i);
                proof {
                    assert(self@ =~= before.remove(i as int));
                    assert(before[i as int].0 == handle);
                    assert forall|h: u64| h != handle implies (#[trigger] self.is_open(h) <==> old(self).is_open(h)) by {
                        if old(self).is_open(h) {
                            let k = choose|k: int| 0 <= k < before.len() && #[trigger] before[k].0 == h;
                            if k < i {
                                assert(self@[k].0 == h);
                            } else {
                                assert(k != i);
                                assert(self@[k - 1].0 == h);
                            }
                        }
                        if self.is_open(h) {
                            let k = choose|k: int| 0 <= k < self@.len() && #[trigger] self@[k].0 == h;
                            if k < i {
                                assert(before[k].0 == h);
                            } else {
                                assert(before[k + 1].0 == h);
                            }
                        }
                    }
                    if self.is_open(handle) {
                        let k = choose|k: int| 0 <= k < self@.len() && #[trigger] self@[k].0 == handle;
                        if k < i {
                            assert(before[k].0 == before[i as int].0);
                        } else {
                            assert(before[k + 1].0 == before[i as int].0);
                        }
                    }
                    assert forall|h: u64| h != handle && old(self).is_open(h) implies #[trigger] self.inode_at(h) == old(self).inode_at(h) by {
                        let k = choose|k: int| 0 <= k < before.len() && #[trigger] before[k].0 == h;
                        let k2 = choose|k2: int| 0 <= k2 < self@.len() && #[trigger] self@[k2].0 == h;
                        let kk = if k2 < i { k2 } else { k2 + 1 };
                        assert(before[kk].0 == h);
                        assert(kk == k) by {
                            if kk != k {
                                if kk < k {
                                    assert(before[kk].0 != before[k].0);
                                } else {
                                    assert(before[k].0 != before[kk].0);
                                }
                            }
                        }
                    }
                }
                Ok(())
            },
        }
    }
}

/// Closing a handle right after opening it leaves the open handles as they were: the
/// new handle was not open before, so it is the last entry, and closing removes it.
pub proof fn lemma_close_undoes_open(
    before: Seq<(u64, Seq<char>, u64)>,
    opened: Seq<(u64, Seq<char>, u64)>,
    closed: Seq<(u64, Seq<char>, u64)>,
    handle: u64,
    path: Seq<char>,
    inode: u64,
    i: int,
)
    requires
        forall|j: int| 0 <= j < before.len() ==> #[trigger] before[j].0 != handle,
        opened == before.push((handle, path, inode)),
        0 <= i < opened.len(),
        opened[i].0 == handle,
        closed == opened.remove(i),
    ensures
        closed == before,
{
    if i < before.len() {
        assert(before[i].0 == opened[i].0);
    }
    assert(closed =~= before);
}

} // verus!
