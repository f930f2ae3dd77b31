//! The scheduler's intrusive list: like the general one, but a removed node is
//! detached from the list completely.
use vstd::prelude::*;
use crate::process::lfill as base;
use crate::process::lfill::{detached, payloads_kept, unchanged_outside, IntrusiveNode};

verus! {

/// A doubly linked list of nodes of an arena, with a head and a tail.
pub struct LockFreeIntrusiveLinkedList<T: IntrusiveNode> {
    inner: base::LockFreeIntrusiveLinkedList<T>,
}

impl<T: IntrusiveNode> LockFreeIntrusiveLinkedList<T> {
    /// The indices of the listed nodes, from head to tail.
    pub closed spec fn view(&self) -> Seq<usize> {
        self.inner@
    }

    /// The list's links are consistent with `nodes`.
    pub closed spec fn wf(&self, nodes: Seq<T>) -> bool {
        self.inner.wf(nodes)
    }

    /// A well-formed list is a chain of distinct nodes linked along its order: each
    /// listed node points to its neighbours in the list, the first has no previous node
    /// and the last no next node.
    pub proof fn lemma_wf_linked(&self, nodes: Seq<T>)
        requires
            self.wf(nodes),
        ensures
            base::linked(self@, nodes),
    {
        self.inner.lemma_wf_linked(nodes);
    }

    /// Well-formedness depends on the nodes only through the links of the listed ones:
    /// a list stays well-formed over an arena whose listed nodes keep their links.
    pub proof fn lemma_wf_transfer(&self, before: Seq<T>, after: Seq<T>)
        requires
            self.wf(before),
            base::linked(self@, after),
        ensures
            self.wf(after),
    {
        self.inner.lemma_wf_transfer(before, after);
    }

    /// Creates an empty list.
    pub fn new() -> (r: Self)
        ensures
            r@ == Seq::<usize>::empty(),
            forall|nodes: Seq<T>| r.wf(nodes),
    {
        LockFreeIntrusiveLinkedList { inner: base::LockFreeIntrusiveLinkedList::new() }
    }

    /// The index of the first node, if any.
    pub fn head(&self, nodes: &Vec<T>) -> (r: Option<usize>)
        requires
            self.wf(nodes@),
        ensures
            r == base::first_of(self@),
    {
        self.inner.head(nodes)
    }

    /// The index of the last node, if any.
    pub fn tail(&self, nodes: &Vec<T>) -> (r: Option<usize>)
        requires
            self.wf(nodes@),
        ensures
            r == base::last_of(self@),
    {
        self.inner.tail(nodes)
    }

    /// Appends the node `t`, which must not point to another node.
    pub fn push_back(&mut self, t: usize, nodes: &mut Vec<T>)
        requires
            old(self).wf(old(nodes)@),
            t < old(nodes).len(),
            !old(self)@.contains(t),
            detached(old(nodes)@[t as int]),
        ensures
            final(self).wf(final(nodes)@),
            final(self)@ == old(self)@.push(t),
            base::linked(final(self)@, final(nodes)@),
            unchanged_outside(old(nodes)@, final(nodes)@, old(self)@, Some(t)),
            payloads_kept(old(nodes)@, final(nodes)@),
    {
        let _ = self.inner.push_back(t, nodes);
        proof {
            self.inner.lemma_wf_linked(nodes@);
        }
    }

    /// Removes the first node and returns it, detached, or `None` if the list is empty.
    pub fn pop_front(&mut self, nodes: &mut Vec<T>) -> (r: Option<usize>)
        requires
            old(self).wf(old(nodes)@),
        ensures
            final(self).wf(final(nodes)@),
            old(self)@.len() == 0 ==> r is None && final(self)@ == old(self)@ && final(nodes)@
                == old(nodes)@,
            old(self)@.len() > 0 ==> r == Some(old(self)@[0]) && final(self)@ == old(
                self,
            )@.drop_first() && detached(final(nodes)@[old(self)@[0] as int]),
            base::linked(final(self)@, final(nodes)@),
            unchanged_outside(old(nodes)@, final(nodes)@, final(self)@, r),
            payloads_kept(old(nodes)@, final(nodes)@),
    {
        let ghost before = nodes@;
        proof {
            self.inner.lemma_wf_linked(nodes@);
        }
        let r = self.inner.pop_front(nodes);
        match r {
            None => {},
            Some(h) => {
                let ghost mid = nodes@;
                proof {
                    self.inner.lemma_wf_linked(nodes@);
                    assert(old(self)@[0] == h);
                    assert(h < before.len());
                    assert(!self.inner@.contains(h)) by {
                        if self.inner@.contains(h) {
                            let k = choose|k: int| 0 <= k < self.inner@.len() && self.inner@[k] == h;
                            assert(old(self)@[k + 1] == h);
                            assert(old(self)@[0] != old(self)@[k + 1]);
                        }
                    }
                    assert(mid[h as int] == before[h as int]);
                    assert(before[old(self)@[0] as int].spec_previous() == base::previous_of(old(self)@, 0));
                }
                nodes[h].set_next(None);
                proof {
                    let ids = self.inner@;
                    assert forall|i: int| 0 <= i < ids.len() implies #[trigger] nodes@[ids[i] as int] == mid[ids[i] as int] by {
                        assert(ids[i] != h) by {
                            assert(ids.contains(ids[i]));
                        }
                    }
                    assert(base::linked(ids, nodes@));
                    self.inner.lemma_wf_transfer(mid, nodes@);
                }
            },
        }
        proof {
            self.inner.lemma_wf_linked(nodes@);
        }
        r
    }

    /// Moves all nodes of `other` to the back of this list, keeping their order.
    pub fn append(&mut self, other: &mut Self, nodes: &mut Vec<T>)
        requires
            old(self).wf(old(nodes)@),
            old(other).wf(old(nodes)@),
            old(self)@.disjoint(old(other)@),
        ensures
            final(self).wf(final(nodes)@),
            final(other).wf(final(nodes)@),
            final(self)@ == old(self)@ + old(other)@,
            final(other)@ == Seq::<usize>::empty(),
            base::linked(final(self)@, final(nodes)@),
            unchanged_outside(old(nodes)@, final(nodes)@, old(self)@ + old(other)@, None),
            payloads_kept(old(nodes)@, final(nodes)@),
    {
        self.inner.append(&mut other.inner, nodes);
        proof {
            self.inner.lemma_wf_linked(nodes@);
        }
    }
}

} // verus!
