//! The storage façade through which lists obtain and release room for
//! their elements.

use vstd::prelude::*;

verus! {

/// Error surfaced when storage cannot be obtained.
#[derive(Debug, Clone, Copy, PartialEq, Eq, Structural)]
pub enum AllocErr {
    OutOfMemory,
}

/// The process heap as a storage backend.
#[derive(Debug, Clone, Copy)]
pub struct HeapAllocator {}

/// A cheap, copyable handle to a storage backend. Every handle refers to
/// the same process-wide heap.
#[derive(Debug, Clone, Copy)]
pub struct Allocator {
    backend: HeapAllocator,
}

/// Relies on `Vec::shrink_to`: it lowers the reserved room towards
/// `min_capacity` and leaves the elements as they are.
#[verifier::external_body]
fn vec_shrink_to<T>(buffer: &mut Vec<T>, min_capacity: usize)
    ensures
        final(buffer)@ == old(buffer)@,
{
    buffer.shrink_to(min_capacity)
}

impl HeapAllocator {
    /// Makes room in `buffer` for at least `capacity` elements in all.
    /// The elements are kept whatever happens; a refusal by the heap
    /// comes back as `OutOfMemory`.
    pub fn reserve_buffer<T>(&self, buffer: &mut Vec<T>, capacity: usize) -> (r: Result<(), AllocErr>)
        requires
            old(buffer)@.len() <= capacity,
        ensures
            final(buffer)@ == old(buffer)@,
            r is Err ==> r == Err::<(), AllocErr>(AllocErr::OutOfMemory),
    {
        let additional = capacity - buffer.len();
        match buffer.try_reserve(additional) {
            Ok(()) => Ok(()),
            Err(_) => Err(AllocErr::OutOfMemory),
        }
    }

    /// Gives back room beyond `capacity` elements, keeping the elements.
    pub fn shrink_buffer<T>(&self, buffer: &mut Vec<T>, capacity: usize)
        ensures
            final(buffer)@ == old(buffer)@,
    {
        vec_shrink_to(buffer, capacity)
    }
}

impl Allocator {
    /// A handle to the process heap.
    pub fn heap() -> (r: Allocator) {
        Allocator { backend: HeapAllocator {} }
    }

    /// See [`HeapAllocator::reserve_buffer`].
    pub fn reserve_buffer<T>(&self, buffer: &mut Vec<T>, capacity: usize) -> (r: Result<(), AllocErr>)
        requires
            old(buffer)@.len() <= capacity,
        ensures
            final(buffer)@ == old(buffer)@,
            r is Err ==> r == Err::<(), AllocErr>(AllocErr::OutOfMemory),
    {
        self.backend.reserve_buffer(buffer, capacity)
    }

    /// See [`HeapAllocator::shrink_buffer`].
    pub fn shrink_buffer<T>(&self, buffer: &mut Vec<T>, capacity: usize)
        ensures
            final(buffer)@ == old(buffer)@,
    {
        self.backend.shrink_buffer(buffer, capacity)
    }
}

/// The process-wide default allocator.
pub fn global_heap_allocator() -> (r: Allocator) {
    Allocator::heap()
}

} // verus!
