//! Usage figures of the kernel heap, which the `linked_list_allocator` crate manages.
use vstd::prelude::*;
use linked_list_allocator::Heap as ListHeap;

verus! {

/// The heap of the `linked_list_allocator` crate.
#[verifier::external_type_specification]
#[verifier::external_body]
pub struct ExListHeap(ListHeap);

/// The bytes between the bottom of `heap` and the top that it uses for allocations, as
/// `Heap::size` of the `linked_list_allocator` crate gives them.
pub uninterp spec fn heap_size(heap: ListHeap) -> usize;

/// The bytes of `heap` that are handed out and not yet given back, as `Heap::used` of
/// the `linked_list_allocator` crate gives them.
pub uninterp spec fn heap_used(heap: ListHeap) -> usize;

/// `Heap::size` of the `linked_list_allocator` crate: the bytes between the heap's bottom
/// and the top that it uses for allocations.
#[verifier::external_body]
fn list_heap_size(heap: &ListHeap) -> (r: usize)
    ensures
        r == heap_size(*heap),
{
    heap.size()
}

/// `Heap::used` of the `linked_list_allocator` crate: the bytes handed out and not yet
/// given back.
#[verifier::external_body]
fn list_heap_used(heap: &ListHeap) -> (r: usize)
    ensures
        r == heap_used(*heap),
{
    heap.used()
}

/// `Heap::free` of the `linked_list_allocator` crate, which its source computes as the
/// size less the used bytes; the used bytes lie within the heap, so they never exceed
/// its size.
#[verifier::external_body]
fn list_heap_free(heap: &ListHeap) -> (r: usize)
    ensures
        r == heap_size(*heap) - heap_used(*heap),
{
    heap.free()
}

/// The kernel heap.
#[derive(Debug, Clone, Copy, PartialEq, Eq, Structural)]
pub struct Heap;

impl Heap {
    /// How many bytes of the heap are free: its size less the bytes in use.
    pub fn free(heap: &ListHeap) -> (r: usize)
        ensures
            r == heap_size(*heap) - heap_used(*heap),
    {
        list_heap_free(heap)
    }

    /// How many bytes of the heap are in use.
    pub fn used(heap: &ListHeap) -> (r: usize)
        ensures
            r == heap_used(*heap),
    {
        list_heap_used(heap)
    }

    /// The size of the heap in bytes.
    pub fn size(heap: &ListHeap) -> (r: usize)
        ensures
            r == heap_size(*heap),
    {
        list_heap_size(heap)
    }
}

/// How many bytes of the heap are free: its size less the bytes in use.
pub fn free(heap: &ListHeap) -> (r: usize)
    ensures
        r == heap_size(*heap) - heap_used(*heap),
{
    list_heap_free(heap)
}

/// The size of the heap in bytes.
pub fn size(heap: &ListHeap) -> (r: usize)
    ensures
        r == heap_size(*heap),
{
    list_heap_size(heap)
}

/// How many bytes of the heap are in use.
pub fn used(heap: &ListHeap) -> (r: usize)
    ensures
        r == heap_used(*heap),
{
    list_heap_used(heap)
}

} // verus!
