//! A slab heap: seven classes of fixed-size blocks for small requests, with
//! larger requests handed on to a separate large-block allocator.
//!
//! The crate keeps the books on addresses only. It never reads or writes the
//! memory it manages, so every operation is an ordinary function on integers.
use vstd::prelude::*;

pub mod extent;
pub mod heap;
pub mod history;
pub mod layout;
pub mod locked;
pub mod partition;
pub mod slab;

pub use extent::Extent;
pub use heap::{Allocation, Heap, HeapAllocator, HeapView};
pub use history::Request;
pub use layout::{Layout, LayoutError};
pub use locked::{HeapSlot, LockedHeap, LockedHeapError};
pub use slab::{OutOfMemory, Slab, SlabView};

verus! {

/// Number of sub-allocators a heap is split into: seven block classes and the
/// region of the large-block allocator.
pub const NUM_OF_SLABS: usize = 8;

/// Smallest share of a heap that one sub-allocator can be given: one page.
pub const MIN_SLAB_SIZE: usize = 4096;

/// Smallest heap: one page for each sub-allocator.
pub const MIN_HEAP_SIZE: usize = NUM_OF_SLABS * MIN_SLAB_SIZE;

/// Advice to the system on how the heap's memory will be used. The heap has
/// none to give: it keeps all of its range for as long as it lives.
pub fn memadvise() {
}

} // verus!
