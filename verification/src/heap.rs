//! The double-ended priority queue of the `min-max-heap` crate, as this
//! library uses it: a heap of `(priority, id)` pairs, ordered as tuples are.
//!
//! Nothing in this file is proved. Each function states what the crate's
//! method does to the pairs that the heap holds.

use min_max_heap::MinMaxHeap;
use vstd::multiset::Multiset;
use vstd::prelude::*;

verus! {

/// `min_max_heap::MinMaxHeap`, whose inside the verifier does not see.
#[verifier::external_type_specification]
#[verifier::external_body]
#[verifier::reject_recursive_types(T)]
pub struct ExMinMaxHeap<T>(MinMaxHeap<T>);

/// The pairs that a heap holds, each as often as it was pushed and not yet popped.
pub uninterp spec fn heap_items(heap: MinMaxHeap<(u64, u64)>) -> Multiset<(u64, u64)>;

/// The order of pairs: by the first component, then by the second.
pub open spec fn pair_le(a: (u64, u64), b: (u64, u64)) -> bool {
    a.0 < b.0 || (a.0 == b.0 && a.1 <= b.1)
}

/// Whether `x` is in `items` and no pair of `items` is greater.
pub open spec fn is_greatest(items: Multiset<(u64, u64)>, x: (u64, u64)) -> bool {
    items.count(x) > 0 && forall|y: (u64, u64)| items.count(y) > 0 ==> pair_le(y, x)
}

/// Whether `x` is in `items` and no pair of `items` is smaller.
pub open spec fn is_least(items: Multiset<(u64, u64)>, x: (u64, u64)) -> bool {
    items.count(x) > 0 && forall|y: (u64, u64)| items.count(y) > 0 ==> pair_le(x, y)
}

/// `MinMaxHeap::with_capacity` creates an empty heap with room for `capacity`
/// pairs. It allocates a vector of that capacity, which panics where the
/// capacity in bytes exceeds `isize::MAX`; a pair takes 16 bytes.
#[verifier::external_body]
pub(crate) fn heap_with_capacity(capacity: usize) -> (heap: MinMaxHeap<(u64, u64)>)
    requires
        capacity * 16 <= isize::MAX,
    ensures
        heap_items(heap) == Multiset::<(u64, u64)>::empty(),
{
    MinMaxHeap::with_capacity(capacity)
}

/// `MinMaxHeap::len` returns the number of elements in the heap.
#[verifier::external_body]
pub(crate) fn heap_len(heap: &MinMaxHeap<(u64, u64)>) -> (len: usize)
    ensures
        len == heap_items(*heap).len(),
{
    heap.len()
}

/// `MinMaxHeap::push` adds an element to the heap.
#[verifier::external_body]
pub(crate) fn heap_push(heap: &mut MinMaxHeap<(u64, u64)>, item: (u64, u64))
    ensures
        heap_items(*final(heap)) == heap_items(*old(heap)).insert(item),
{
    heap.push(item)
}

/// `MinMaxHeap::pop_max` removes the maximum element and returns it, or
/// returns `None` and leaves the heap as it is where the heap is empty.
#[verifier::external_body]
pub(crate) fn heap_pop_max(heap: &mut MinMaxHeap<(u64, u64)>) -> (popped: Option<(u64, u64)>)
    ensures
        match popped {
            Some(x) => is_greatest(heap_items(*old(heap)), x) && heap_items(*final(heap))
                == heap_items(*old(heap)).remove(x),
            None => heap_items(*old(heap)).len() == 0 && heap_items(*final(heap)) == heap_items(
                *old(heap),
            ),
        },
{
    heap.pop_max()
}

/// `MinMaxHeap::push_pop_min` pushes an element, then pops the minimum
/// element and returns it: the heap never holds one element more.
#[verifier::external_body]
pub(crate) fn heap_push_pop_min(heap: &mut MinMaxHeap<(u64, u64)>, item: (u64, u64)) -> (popped: (
    u64,
    u64,
))
    ensures
        is_least(heap_items(*old(heap)).insert(item), popped),
        heap_items(*final(heap)) == heap_items(*old(heap)).insert(item).remove(popped),
{
    heap.push_pop_min(item)
}

} // verus!
