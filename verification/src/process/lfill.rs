//! An intrusive doubly linked list.
//!
//! Nodes live in an arena (a `Vec` of nodes); a node is referred to by its index
//! in the arena, and `None` plays the part of the null pointer. Each node carries
//! its own `next` and `previous` links, which the list maintains.
use vstd::prelude::*;
use core::marker::PhantomData;

verus! {

/// A node that carries its own list links.
pub trait IntrusiveNode: Sized {
    spec fn spec_next(&self) -> Option<usize>;

    spec fn spec_previous(&self) -> Option<usize>;

    /// The node with its links cleared: what it holds besides its links.
    spec fn spec_unlinked(&self) -> Self;

    fn next(&self) -> (r: Option<usize>)
        ensures
            r == self.spec_next(),
    ;

    fn previous(&self) -> (r: Option<usize>)
        ensures
            r == self.spec_previous(),
    ;

    fn set_next(&mut self, next: Option<usize>)
        ensures
            final(self).spec_next() == next,
            final(self).spec_previous() == old(self).spec_previous(),
            final(self).spec_unlinked() == old(self).spec_unlinked(),
    ;

    fn set_previous(&mut self, previous: Option<usize>)
        ensures
            final(self).spec_previous() == previous,
            final(self).spec_next() == old(self).spec_next(),
            final(self).spec_unlinked() == old(self).spec_unlinked(),
    ;
}

/// A plain list node holding a value.
#[derive(Debug, Clone, Copy)]
pub struct ListNode {
    pub next: Option<usize>,
    pub previous: Option<usize>,
    pub value: u32,
}

impl ListNode {
    /// A node with the given value that is not linked to any other node.
    pub fn new(value: u32) -> (r: Self)
        ensures
            r.next is None,
            r.previous is None,
            r.value == value,
    {
        ListNode { next: None, previous: None, value }
    }
}

impl IntrusiveNode for ListNode {
    open spec fn spec_next(&self) -> Option<usize> {
        self.next
    }

    open spec fn spec_previous(&self) -> Option<usize> {
        self.previous
    }

    open spec fn spec_unlinked(&self) -> ListNode {
        ListNode { next: None, previous: None, value: self.value }
    }

    fn next(&self) -> (r: Option<usize>) {
        self.next
    }

    fn previous(&self) -> (r: Option<usize>) {
        self.previous
    }

    fn set_next(&mut self, next: Option<usize>) {
        self.next = next;
    }

    fn set_previous(&mut self, previous: Option<usize>) {
        self.previous = previous;
    }
}

/// A node that can be handed to a list: it moves into the arena of nodes, where it is
/// known by its index from then on.
pub trait BoxedIntrusiveNode: Sized {
    /// Moves the node into the arena and returns the index by which it is known.
    fn into_mut_ptr(self, nodes: &mut Vec<Self>) -> (r: usize)
        ensures
            r == old(nodes).len(),
            final(nodes)@ == old(nodes)@.push(self),
    ;
}

impl<T: IntrusiveNode> BoxedIntrusiveNode for T {
    fn into_mut_ptr(self, nodes: &mut Vec<Self>) -> (r: usize) {
        nodes.push(self);
        nodes.len() - 1
    }
}

/// The link that the node at position `i` of `ids` must have to its successor.
pub open spec fn next_of(ids: Seq<usize>, i: int) -> Option<usize> {
    if i + 1 < ids.len() {
        Some(ids[i + 1])
    } else {
        None
    }
}

/// The link that the node at position `i` of `ids` must have to its predecessor.
pub open spec fn previous_of(ids: Seq<usize>, i: int) -> Option<usize> {
    if i > 0 {
        Some(ids[i - 1])
    } else {
        None
    }
}

/// The first element of `ids`, if any.
pub open spec fn first_of(ids: Seq<usize>) -> Option<usize> {
    if ids.len() > 0 {
        Some(ids[0])
    } else {
        None
    }
}

/// The last element of `ids`, if any.
pub open spec fn last_of(ids: Seq<usize>) -> Option<usize> {
    if ids.len() > 0 {
        Some(ids.last())
    } else {
        None
    }
}

/// `ids` is a chain of distinct nodes of `nodes` whose links run exactly along `ids`.
pub open spec fn linked<T: IntrusiveNode>(ids: Seq<usize>, nodes: Seq<T>) -> bool {
    &&& forall|i: int| 0 <= i < ids.len() ==> #[trigger] ids[i] < nodes.len()
    &&& forall|i: int, j: int| 0 <= i < j < ids.len() ==> ids[i] != ids[j]
    &&& forall|i: int|
        0 <= i < ids.len() ==> (#[trigger] nodes[ids[i] as int]).spec_next() == next_of(ids, i)
    &&& forall|i: int|
        0 <= i < ids.len() ==> (#[trigger] nodes[ids[i] as int]).spec_previous() == previous_of(
            ids,
            i,
        )
}

/// A node that is not linked to any other node.
pub open spec fn detached<T: IntrusiveNode>(node: T) -> bool {
    node.spec_next() is None && node.spec_previous() is None
}

/// Every node of `after` holds what the node at its index in `before` held, apart
/// from its links.
pub open spec fn payloads_kept<T: IntrusiveNode>(before: Seq<T>, after: Seq<T>) -> bool {
    &&& after.len() == before.len()
    &&& forall|j: int| 0 <= j < before.len() ==> #[trigger] after[j].spec_unlinked() == before[j].spec_unlinked()
}

/// All nodes of `nodes` that are neither in `ids` nor in `except` are the same in `after`.
pub open spec fn unchanged_outside<T>(
    before: Seq<T>,
    after: Seq<T>,
    ids: Seq<usize>,
    except: Option<usize>,
) -> bool {
    &&& after.len() == before.len()
    &&& forall|j: int|
        0 <= j < before.len() && !ids.contains(j as usize) && except != Some(j as usize)
            ==> #[trigger] after[j] == before[j]
}

/// Popping the front of a list right after pushing a node to its front gives back that
/// node and the list as it was.
pub proof fn lemma_pop_front_undoes_push_front(ids: Seq<usize>, t: usize)
    ensures
        (seq![t] + ids)[0] == t,
        (seq![t] + ids).drop_first() == ids,
{
    assert((seq![t] + ids).drop_first() =~= ids);
}

/// Appending moves every node of the second list, in order, behind those of the first.
pub proof fn lemma_append_keeps_order(a: Seq<usize>, b: Seq<usize>)
    ensures
        (a + b).len() == a.len() + b.len(),
        forall|i: int| 0 <= i < a.len() ==> #[trigger] (a + b)[i] == a[i],
        forall|i: int| 0 <= i < b.len() ==> #[trigger] (a + b)[a.len() + i] == b[i],
{
}

/// A doubly linked list of nodes of an arena, with a head and a tail.
pub struct LockFreeIntrusiveLinkedList<T: IntrusiveNode> {
    head: Option<usize>,
    tail: Option<usize>,
    ids: Ghost<Seq<usize>>,
    _node: PhantomData<T>,
}

impl<T: IntrusiveNode> LockFreeIntrusiveLinkedList<T> {
    /// The indices of the listed nodes, from head to tail.
    pub closed spec fn view(&self) -> Seq<usize> {
        self.ids@
    }

    /// The list's links are consistent with `nodes`.
    pub closed spec fn wf(&self, nodes: Seq<T>) -> bool {
        &&& linked(self.ids@, nodes)
        &&& self.head == first_of(self.ids@)
        &&& self.tail == last_of(self.ids@)
    }

    /// A well-formed list is a chain of distinct nodes linked along its order.
    pub proof fn lemma_wf_linked(&self, nodes: Seq<T>)
        requires
            self.wf(nodes),
        ensures
            linked(self@, nodes),
    {
    }

    /// Well-formedness depends on the nodes only through the links of the listed ones.
    pub proof fn lemma_wf_transfer(&self, before: Seq<T>, after: Seq<T>)
        requires
            self.wf(before),
            linked(self@, after),
        ensures
            self.wf(after),
    {
    }

    /// The index of the first node, if any.
    pub fn head(&self, nodes: &Vec<T>) -> (r: Option<usize>)
        requires
            self.wf(nodes@),
        ensures
            r == first_of(self@),
    {
        self.head
    }

    /// The index of the last node, if any.
    pub fn tail(&self, nodes: &Vec<T>) -> (r: Option<usize>)
        requires
            self.wf(nodes@),
        ensures
            r == last_of(self@),
    {
        self.tail
    }

    /// Creates an empty list.
    pub fn new() -> (r: Self)
        ensures
            r@ == Seq::<usize>::empty(),
            forall|nodes: Seq<T>| r.wf(nodes),
    {
        LockFreeIntrusiveLinkedList {
            head: None,
            tail: None,
            ids: Ghost(Seq::empty()),
            _node: PhantomData,
        }
    }

    /// Inserts the node `t` at the front of the list. The node must not point to
    /// another node. Always succeeds.
    pub fn push_front(&mut self, t: usize, nodes: &mut Vec<T>) -> (r: Result<(), ()>)
        requires
            old(self).wf(old(nodes)@),
            t < old(nodes).len(),
            !old(self)@.contains(t),
            detached(old(nodes)@[t as int]),
        ensures
            r is Ok,
            final(self).wf(final(nodes)@),
            final(self)@ == seq![t] + old(self)@,
            unchanged_outside(old(nodes)@, final(nodes)@, old(self)@, Some(t)),
            payloads_kept(old(nodes)@, final(nodes)@),
    {
        let ghost old_ids = self.ids@;
        let ghost old_nodes = nodes@;
        let old_head = self.head;
        nodes[t].set_next(old_head);
        match old_head {
            None => {
                self.tail = Some(t);
            },
            Some(h) => {
                assert(old_ids[0] == h);
                nodes[h].set_previous(Some(t));
            },
        }
        self.head = Some(t);
        let ghost new_ids = seq![t] + old_ids;
        self.ids = Ghost(new_ids);
        proof {
            assert forall|i: int| 0 <= i < new_ids.len() implies #[trigger] new_ids[i] < nodes@.len() by {
                if i > 0 {
                    assert(new_ids[i] == old_ids[i - 1]);
                }
            }
            assert forall|i: int, j: int| 0 <= i < j < new_ids.len() implies new_ids[i] != new_ids[j] by {
                if i == 0 {
                    assert(new_ids[j] == old_ids[j - 1]);
                    assert(old_ids.contains(old_ids[j - 1]));
                } else {
                    assert(new_ids[i] == old_ids[i - 1]);
                    assert(new_ids[j] == old_ids[j - 1]);
                }
            }
            assert forall|i: int| 0 <= i < new_ids.len() implies (#[trigger] nodes@[new_ids[i] as int]).spec_next() == next_of(new_ids, i) by {
                if i > 0 {
                    assert(new_ids[i] == old_ids[i - 1]);
                    assert(old_nodes[old_ids[i - 1] as int].spec_next() == next_of(old_ids, i - 1));
                    if i - 1 + 1 < old_ids.len() {
                        assert(new_ids[i + 1] == old_ids[i]);
                    }
                }
            }
            assert forall|i: int| 0 <= i < new_ids.len() implies (#[trigger] nodes@[new_ids[i] as int]).spec_previous() == previous_of(new_ids, i) by {
                if i > 0 {
                    assert(new_ids[i] == old_ids[i - 1]);
                    assert(old_nodes[old_ids[i - 1] as int].spec_previous() == previous_of(old_ids, i - 1));
                }
            }
            assert forall|j: int| 0 <= j < old_nodes.len() && !old_ids.contains(j as usize) && Some(t) != Some(j as usize)
                implies #[trigger] nodes@[j] == old_nodes[j] by {
                if old_head is Some {
                    assert(old_ids.contains(old_ids[0]));
                }
            }
        }
        Ok(())
    }

    /// Inserts the node `t` at the back of the list. The node must not point to
    /// another node. Always succeeds.
    pub fn push_back(&mut self, t: usize, nodes: &mut Vec<T>) -> (r: Result<(), ()>)
        requires
            old(self).wf(old(nodes)@),
            t < old(nodes).len(),
            !old(self)@.contains(t),
            detached(old(nodes)@[t as int]),
        ensures
            r is Ok,
            final(self).wf(final(nodes)@),
            final(self)@ == old(self)@.push(t),
            unchanged_outside(old(nodes)@, final(nodes)@, old(self)@, Some(t)),
            payloads_kept(old(nodes)@, final(nodes)@),
    {
        let ghost old_ids = self.ids@;
        let ghost old_nodes = nodes@;
        let old_tail = self.tail;
        nodes[t].set_previous(old_tail);
        match old_tail {
            None => {
                self.head = Some(t);
            },
            Some(l) => {
                assert(old_ids[old_ids.len() - 1] == l);
                nodes[l].set_next(Some(t));
            },
        }
        self.tail = Some(t);
        let ghost new_ids = old_ids.push(t);
        self.ids = Ghost(new_ids);
        proof {
            let n = old_ids.len() as int;
            assert forall|i: int| 0 <= i < new_ids.len() implies #[trigger] new_ids[i] < nodes@.len() by {
                if i < n {
                    assert(new_ids[i] == old_ids[i]);
                }
            }
            assert forall|i: int, j: int| 0 <= i < j < new_ids.len() implies new_ids[i] != new_ids[j] by {
                assert(new_ids[i] == old_ids[i]);
                if j == n {
                    assert(old_ids.contains(old_ids[i]));
                } else {
                    assert(new_ids[j] == old_ids[j]);
                }
            }
            assert forall|i: int| 0 <= i < new_ids.len() implies (#[trigger] nodes@[new_ids[i] as int]).spec_next() == next_of(new_ids, i) by {
                if i < n {
                    assert(new_ids[i] == old_ids[i]);
                    assert(old_nodes[old_ids[i] as int].spec_next() == next_of(old_ids, i));
                    if i + 1 < n {
                        assert(new_ids[i + 1] == old_ids[i + 1]);
                    }
                }
            }
            assert forall|i: int| 0 <= i < new_ids.len() implies (#[trigger] nodes@[new_ids[i] as int]).spec_previous() == previous_of(new_ids, i) by {
                if i < n {
                    assert(new_ids[i] == old_ids[i]);
                    assert(old_nodes[old_ids[i] as int].spec_previous() == previous_of(old_ids, i));
                    if i > 0 {
                        assert(new_ids[i - 1] == old_ids[i - 1]);
                    }
                } else if n > 0 {
                    assert(new_ids[i - 1] == old_ids[n - 1]);
                }
            }
            assert forall|j: int| 0 <= j < old_nodes.len() && !old_ids.contains(j as usize) && Some(t) != Some(j as usize)
                implies #[trigger] nodes@[j] == old_nodes[j] by {
                if old_tail is Some {
                    assert(old_ids.contains(old_ids[n - 1]));
                }
            }
        }
        Ok(())
    }

    /// Removes the node at the front of the list and returns it, or `None` if the
    /// list is empty. The removed node keeps its own links.
    pub fn pop_front(&mut self, nodes: &mut Vec<T>) -> (r: Option<usize>)
        requires
            old(self).wf(old(nodes)@),
        ensures
            final(self).wf(final(nodes)@),
            old(self)@.len() == 0 ==> r is None && final(self)@ == old(self)@ && final(nodes)@
                == old(nodes)@,
            old(self)@.len() > 0 ==> r == Some(old(self)@[0]) && final(self)@ == old(
                self,
            )@.drop_first(),
            unchanged_outside(old(nodes)@, final(nodes)@, final(self)@, None),
            payloads_kept(old(nodes)@, final(nodes)@),
    {
        let ghost old_ids = self.ids@;
        let ghost old_nodes = nodes@;
        let old_head = match self.head {
            None => {
                return None;
            },
            Some(h) => h,
        };
        assert(old_ids[0] == old_head);
        let new_head = nodes[old_head].next();
        self.head = new_head;
        match new_head {
            None => {
                if self.tail == Some(old_head) {
                    self.tail = None;
                }
            },
            Some(nh) => {
                assert(nh == old_ids[1]);
                if nodes[nh].previous() == Some(old_head) {
                    nodes[nh].set_previous(None);
                }
            },
        }
        let ghost new_ids = old_ids.drop_first();
        self.ids = Ghost(new_ids);
        proof {
            assert forall|i: int| 0 <= i < new_ids.len() implies #[trigger] new_ids[i] < nodes@.len() by {
                assert(new_ids[i] == old_ids[i + 1]);
            }
            assert forall|i: int, j: int| 0 <= i < j < new_ids.len() implies new_ids[i] != new_ids[j] by {
                assert(new_ids[i] == old_ids[i + 1]);
                assert(new_ids[j] == old_ids[j + 1]);
            }
            assert forall|i: int| 0 <= i < new_ids.len() implies (#[trigger] nodes@[new_ids[i] as int]).spec_next() == next_of(new_ids, i) by {
                assert(new_ids[i] == old_ids[i + 1]);
                assert(old_nodes[old_ids[i + 1] as int].spec_next() == next_of(old_ids, i + 1));
                assert(old_ids[i + 1] != old_ids[0]);
                if i + 1 < new_ids.len() {
                    assert(new_ids[i + 1] == old_ids[i + 2]);
                }
            }
            assert forall|i: int| 0 <= i < new_ids.len() implies (#[trigger] nodes@[new_ids[i] as int]).spec_previous() == previous_of(new_ids, i) by {
                assert(new_ids[i] == old_ids[i + 1]);
                assert(old_nodes[old_ids[i + 1] as int].spec_previous() == previous_of(old_ids, i + 1));
                if i > 0 {
                    assert(new_ids[i - 1] == old_ids[i]);
                    assert(old_ids[i + 1] != old_ids[1]);
                }
            }
            assert forall|j: int| 0 <= j < old_nodes.len() && !new_ids.contains(j as usize) && None::<usize> != Some(j as usize)
                implies #[trigger] nodes@[j] == old_nodes[j] by {
                if new_head is Some {
                    assert(new_ids[0] == old_ids[1]);
                    assert(new_ids.contains(new_ids[0]));
                }
            }
        }
        Some(old_head)
    }

    /// Moves all nodes of `other` to the back of this list, keeping their order;
    /// `other` is empty afterwards.
    pub fn append(&mut self, other: &mut Self, nodes: &mut Vec<T>)
        requires
            old(self).wf(old(nodes)@),
            old(other).wf(old(nodes)@),
            old(self)@.disjoint(old(other)@),
        ensures
            final(self).wf(final(nodes)@),
            final(other).wf(final(nodes)@),
            final(self)@ == old(self)@ + old(other)@,
            final(other)@ == Seq::<usize>::empty(),
            unchanged_outside(old(nodes)@, final(nodes)@, old(self)@ + old(other)@, None),
            payloads_kept(old(nodes)@, final(nodes)@),
    {
        let ghost a = self.ids@;
        let ghost b = other.ids@;
        let ghost old_nodes = nodes@;
        let other_head = match other.head {
            None => {
                return;
            },
            Some(h) => h,
        };
        other.head = None;
        assert(b[0] == other_head);

        // walk to the tail of the taken list
        let mut other_tail = other_head;
        let ghost mut k: int = 0;
        while nodes[other_tail].next().is_some()
            invariant
                0 <= k < b.len(),
                other_tail == b[k],
                linked(b, nodes@),
                nodes@ == old_nodes,
            decreases b.len() - k,
        {
            assert(nodes@[b[k] as int].spec_next() == next_of(b, k));
            other_tail = nodes[other_tail].next().unwrap();
            proof {
                k = k + 1;
            }
        }
        assert(nodes@[b[k] as int].spec_next() == next_of(b, k));
        assert(k == b.len() - 1);

        if other.tail == Some(other_tail) {
            other.tail = None;
        }
        other.ids = Ghost(Seq::empty());

        match self.tail {
            None => {
                self.tail = Some(other_tail);
                if self.head.is_none() {
                    self.head = Some(other_head);
                }
            },
            Some(old_tail) => {
                assert(old_tail == a[a.len() - 1]);
                assert(old_nodes[a[a.len() - 1] as int].spec_next() == next_of(a, a.len() - 1));
                if nodes[old_tail].next().is_none() {
                    nodes[old_tail].set_next(Some(other_head));
                }
                self.tail = Some(other_tail);
                assert(old_tail != other_head) by {
                    assert(a.contains(a[a.len() - 1]));
                }
                assert(old_nodes[b[0] as int].spec_previous() == previous_of(b, 0));
                if nodes[other_head].previous().is_none() {
                    nodes[other_head].set_previous(Some(old_tail));
                }
            },
        }
        let ghost c = a + b;
        self.ids = Ghost(c);
        proof {
            let n = a.len() as int;
            assert forall|i: int| 0 <= i < c.len() implies #[trigger] c[i] < nodes@.len() by {
                if i < n {
                    assert(c[i] == a[i]);
                } else {
                    assert(c[i] == b[i - n]);
                }
            }
            assert forall|i: int, j: int| 0 <= i < j < c.len() implies c[i] != c[j] by {
                if j < n {
                    assert(c[i] == a[i] && c[j] == a[j]);
                } else if i >= n {
                    assert(c[i] == b[i - n] && c[j] == b[j - n]);
                } else {
                    assert(c[i] == a[i] && c[j] == b[j - n]);
                    assert(a.contains(a[i]));
                    assert(b.contains(b[j - n]));
                }
            }
            assert forall|i: int| 0 <= i < c.len() implies (#[trigger] nodes@[c[i] as int]).spec_next() == next_of(c, i) by {
                if i < n {
                    assert(c[i] == a[i]);
                    assert(old_nodes[a[i] as int].spec_next() == next_of(a, i));
                    if i + 1 < n {
                        assert(c[i + 1] == a[i + 1]);
                    } else {
                        assert(c[i + 1] == b[0]);
                    }
                    if a[i] == other_head {
                        assert(b.contains(b[0]));
                        assert(a.contains(a[i]));
                    }
                } else {
                    assert(c[i] == b[i - n]);
                    assert(old_nodes[b[i - n] as int].spec_next() == next_of(b, i - n));
                    if i + 1 < c.len() {
                        assert(c[i + 1] == b[i - n + 1]);
                    }
                    if n > 0 {
                        assert(b[i - n] != a[n - 1]) by {
                            assert(a.contains(a[n - 1]));
                            assert(b.contains(b[i - n]));
                        }
                    }
                }
            }
            assert forall|i: int| 0 <= i < c.len() implies (#[trigger] nodes@[c[i] as int]).spec_previous() == previous_of(c, i) by {
                if i < n {
                    assert(c[i] == a[i]);
                    assert(old_nodes[a[i] as int].spec_previous() == previous_of(a, i));
                    if i > 0 {
                        assert(c[i - 1] == a[i - 1]);
                    }
                    assert(a[i] != b[0]) by {
                        assert(a.contains(a[i]));
                        assert(b.contains(b[0]));
                    }
                } else {
                    assert(c[i] == b[i - n]);
                    assert(old_nodes[b[i - n] as int].spec_previous() == previous_of(b, i - n));
                    if i > n {
                        assert(c[i - 1] == b[i - n - 1]);
                        assert(b[i - n] != b[0]);
                    } else if n > 0 {
                        assert(c[i - 1] == a[n - 1]);
                    }
                }
            }
            assert forall|j: int| 0 <= j < old_nodes.len() && !c.contains(j as usize) && None::<usize> != Some(j as usize)
                implies #[trigger] nodes@[j] == old_nodes[j] by {
                assert(c[0] == a[0] || c[0] == b[0]);
                if n > 0 {
                    assert(c[n - 1] == a[n - 1]);
                    assert(c.contains(c[n - 1]));
                }
                assert(c[n] == b[0]);
                assert(c.contains(c[n]));
            }
            assert(other.wf(nodes@));
        }
    }
}

} // verus!
