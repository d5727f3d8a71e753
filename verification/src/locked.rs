//! A heap behind a spin lock, for callers on several threads.
use vstd::prelude::*;
use core::ops::DerefMut;
use crate::extent::Extent;
use crate::heap::{Allocation, Heap, HeapAllocator, HeapView};
use crate::layout::Layout;

verus! {

/// `spin::mutex::Mutex`, the spin lock, as a type whose inside is not
/// looked into.
#[verifier::external_type_specification]
#[verifier::external_body]
#[verifier::reject_recursive_types(T)]
#[verifier::reject_recursive_types(R)]
pub struct ExMutex<T: ?Sized, R>(spin::mutex::Mutex<T, R>);

/// `spin::mutex::MutexGuard`, which holds the lock until it is dropped, as a
/// type whose inside is not looked into.
#[verifier::external_type_specification]
#[verifier::external_body]
#[verifier::reject_recursive_types(T)]
#[verifier::reject_recursive_types(R)]
pub struct ExMutexGuard<'a, T: 'a + ?Sized, R>(spin::mutex::MutexGuard<'a, T, R>);

/// `spin::relax::Spin`, the way in which the lock waits, as a type whose
/// inside is not looked into.
#[verifier::external_type_specification]
#[verifier::external_body]
pub struct ExSpin(spin::relax::Spin);

/// Why a locked heap did not do what it was asked.
#[derive(Clone, Copy, Debug, PartialEq, Eq)]
pub enum LockedHeapError {
    /// The heap was never given its range.
    Uninitialized,
    /// The class that serves the request has no free block.
    OutOfMemory,
    /// The address given back is no block that the class serving the layout
    /// has handed out.
    NotAllocated,
    /// The range offered cannot be handed to the sub-allocator named.
    CannotGrow,
}

/// The place of a heap that may not have been made yet.
///
/// Whatever heap the slot holds is well formed, so a slot can be shared
/// through a lock and used by whoever holds the lock.
pub struct HeapSlot {
    heap: Option<Heap>,
}

impl View for HeapSlot {
    type V = Option<HeapView>;

    closed spec fn view(&self) -> Option<HeapView> {
        match self.heap {
            Some(heap) => Some(heap@),
            None => None,
        }
    }
}

impl HeapSlot {
    #[verifier::type_invariant]
    spec fn well_formed(self) -> bool {
        self.heap matches Some(heap) ==> heap@.wf()
    }

    /// Whatever heap the slot holds is well formed. This holds of every slot
    /// that a program can have.
    pub open spec fn holds_well_formed(self) -> bool {
        self@ matches Some(heap) ==> heap.wf()
    }

    /// What an allocation with `layout` returns from a slot in state `state`.
    pub open spec fn allocation(state: Option<HeapView>, layout: Layout) -> Result<
        Allocation,
        LockedHeapError,
    > {
        match state {
            None => Err(LockedHeapError::Uninitialized),
            Some(heap) => match heap.allocation(layout) {
                Ok(allocation) => Ok(allocation),
                Err(_) => Err(LockedHeapError::OutOfMemory),
            },
        }
    }

    /// What giving `ptr` back with `layout` returns from a slot in state
    /// `state`.
    pub open spec fn release(state: Option<HeapView>, ptr: usize, layout: Layout) -> Result<
        (),
        LockedHeapError,
    > {
        match state {
            None => Err(LockedHeapError::Uninitialized),
            Some(heap) => if HeapAllocator::of(layout) == HeapAllocator::Large
                || heap.is_allocated(ptr, layout) {
                Ok(())
            } else {
                Err(LockedHeapError::NotAllocated)
            },
        }
    }

    /// What handing `[start, start + length)` to `which` returns from a slot
    /// in state `state`.
    pub open spec fn growth(
        state: Option<HeapView>,
        start: usize,
        length: usize,
        which: HeapAllocator,
    ) -> Result<(), LockedHeapError> {
        match state {
            None => Err(LockedHeapError::Uninitialized),
            Some(heap) => if heap.can_grow(start, length, which) {
                Ok(())
            } else {
                Err(LockedHeapError::CannotGrow)
            },
        }
    }

    /// A slot without a heap.
    pub fn empty() -> (slot: HeapSlot)
        ensures
            slot@ is None,
    {
        HeapSlot { heap: None }
    }

    /// Puts a fresh heap over `[heap_start_addr, heap_start_addr + size)`
    /// into the slot. Whatever the slot held is dropped.
    pub fn init(&mut self, heap_start_addr: usize, size: usize)
        requires
            HeapView::valid_range(heap_start_addr, size),
        ensures
            final(self)@ == Some(HeapView::fresh(heap_start_addr, size)),
            final(self).holds_well_formed(),
    {
        self.heap = Some(Heap::new(heap_start_addr, size));
    }

    /// Serves a request from the heap in the slot, as [`Heap::allocate`]
    /// does, or fails where the slot holds none.
    pub fn allocate(&mut self, layout: Layout) -> (r: Result<Allocation, LockedHeapError>)
        ensures
            r == Self::allocation(old(self)@, layout),
            final(self)@ == match old(self)@ {
                Some(heap) => Some(heap.allocate(layout)),
                None => None,
            },
            old(self).holds_well_formed(),
            final(self).holds_well_formed(),
            r matches Ok(Allocation::Block(ptr)) ==> {
                let which = HeapAllocator::of(layout);
                &&& which != HeapAllocator::Large
                &&& old(self)@->0.classes[which].owns(ptr)
                &&& layout.size() <= which.block_size()->0
                &&& (ptr as int) % (which.block_size()->0 as int) == 0
                &&& (ptr as int) % (layout.align() as int) == 0
            },
    {
        proof {
            use_type_invariant(&*self);
        }
        let mut taken: Option<Heap> = None;
        core::mem::swap(&mut self.heap, &mut taken);
        match taken {
            Some(mut heap) => {
                let served = heap.allocate(layout);
                self.heap = Some(heap);
                match served {
                    Ok(allocation) => Ok(allocation),
                    Err(_) => Err(LockedHeapError::OutOfMemory),
                }
            },
            None => Err(LockedHeapError::Uninitialized),
        }
    }

    /// Gives the block at `ptr` back to the heap in the slot, as
    /// [`Heap::deallocate`] does. Where the layout belongs to a class and
    /// `ptr` is no block that the class has handed out, nothing changes and
    /// the call fails; so it does where the slot holds no heap.
    pub fn deallocate(&mut self, ptr: usize, layout: Layout) -> (r: Result<(), LockedHeapError>)
        ensures
            r == Self::release(old(self)@, ptr, layout),
            final(self)@ == match old(self)@ {
                Some(heap) => if r is Ok {
                    Some(heap.deallocate(ptr, layout))
                } else {
                    Some(heap)
                },
                None => None,
            },
            old(self).holds_well_formed(),
            final(self).holds_well_formed(),
    {
        proof {
            use_type_invariant(&*self);
        }
        let mut taken: Option<Heap> = None;
        core::mem::swap(&mut self.heap, &mut taken);
        match taken {
            Some(mut heap) => {
                let known = match Heap::layout_to_allocator(&layout) {
                    HeapAllocator::Large => true,
                    _ => heap.is_allocated(ptr, &layout),
                };
                if known {
                    heap.deallocate(ptr, layout);
                }
                self.heap = Some(heap);
                if known {
                    Ok(())
                } else {
                    Err(LockedHeapError::NotAllocated)
                }
            },
            None => Err(LockedHeapError::Uninitialized),
        }
    }

    /// Hands `[start, start + length)` to the sub-allocator `which` of the
    /// heap in the slot, as [`Heap::grow`] does. Where the heap cannot take
    /// the range, nothing changes and the call fails; so it does where the
    /// slot holds no heap.
    pub fn grow(&mut self, start: usize, length: usize, which: HeapAllocator) -> (r: Result<
        (),
        LockedHeapError,
    >)
        ensures
            r == Self::growth(old(self)@, start, length, which),
            final(self)@ == match old(self)@ {
                Some(heap) => if r is Ok {
                    Some(heap.grow(start, length, which))
                } else {
                    Some(heap)
                },
                None => None,
            },
            old(self).holds_well_formed(),
            final(self).holds_well_formed(),
    {
        proof {
            use_type_invariant(&*self);
        }
        let mut taken: Option<Heap> = None;
        core::mem::swap(&mut self.heap, &mut taken);
        match taken {
            Some(mut heap) => {
                let fits = heap.can_grow(start, length, which);
                if fits {
                    heap.grow(start, length, which);
                }
                self.heap = Some(heap);
                if fits {
                    Ok(())
                } else {
                    Err(LockedHeapError::CannotGrow)
                }
            },
            None => Err(LockedHeapError::Uninitialized),
        }
    }

    /// The least and the greatest number of bytes that an allocation with
    /// `layout` can use, or a failure where the slot holds no heap.
    pub fn usable_size(&self, layout: &Layout) -> (r: Result<(usize, usize), LockedHeapError>)
        ensures
            r == match self@ {
                Some(_) => Ok::<(usize, usize), LockedHeapError>(HeapView::usable_size(*layout)),
                None => Err(LockedHeapError::Uninitialized),
            },
    {
        match &self.heap {
            Some(heap) => Ok(heap.usable_size(layout)),
            None => Err(LockedHeapError::Uninitialized),
        }
    }

    /// Number of free blocks of the class `which`; nothing for the
    /// large-block allocator, or where the slot holds no heap.
    pub fn free_blocks(&self, which: HeapAllocator) -> (r: Option<usize>)
        ensures
            r == match self@ {
                Some(heap) => if which != HeapAllocator::Large {
                    Some(heap.classes[which].free.len() as usize)
                } else {
                    None
                },
                None => None,
            },
    {
        match &self.heap {
            Some(heap) => match heap.class_ref(which) {
                Some(slab) => Some(slab.free_blocks()),
                None => None,
            },
            None => None,
        }
    }
}

/// The state of the slot that a lock was made around by `spin::Mutex::new`.
/// It is a fact of how the lock came to be, and stays what it is whatever
/// the slot behind the lock has since become.
pub uninterp spec fn slot_made_with(mutex: spin::mutex::Mutex<HeapSlot>) -> Option<HeapView>;

/// Calls `spin::Mutex::new`, which wraps the slot in a lock that nobody
/// holds. The lock was made with the slot it was given: that is all that is
/// claimed of it.
#[verifier::external_body]
fn mutex_new(slot: HeapSlot) -> (mutex: spin::mutex::Mutex<HeapSlot>)
    ensures
        slot_made_with(mutex) == slot@,
{
    spin::mutex::Mutex::new(slot)
}

/// Calls `spin::Mutex::lock`, which spins until no one else holds the lock
/// and returns the guard that holds it until it is dropped. Nothing is
/// claimed of the slot behind it: any thread may have changed it. The call
/// does not return while the calling thread itself holds a guard of this
/// lock.
#[verifier::external_body]
fn mutex_lock<'a>(mutex: &'a spin::mutex::Mutex<HeapSlot>) -> (guard: spin::mutex::MutexGuard<
    'a,
    HeapSlot,
>) {
    mutex.lock()
}

/// Calls `deref_mut` of `spin::MutexGuard`, which lends out the slot that
/// the guard protects. Nothing is claimed of the slot.
#[verifier::external_body]
fn guard_slot<'a, 'b>(guard: &'b mut spin::mutex::MutexGuard<'a, HeapSlot>) -> (slot:
    &'b mut HeapSlot) {
    guard.deref_mut()
}

/// A heap that threads share. Every operation takes the spin lock for as
/// long as it runs.
///
/// What another thread does between two calls is not known to the caller, so
/// the contracts here state what holds of any result. What each operation
/// does to the heap that it finds is the contract of the operation of the
/// same name on [`HeapSlot`].
pub struct LockedHeap(spin::mutex::Mutex<HeapSlot>);

impl LockedHeap {
    /// The state that the locked heap was made in: no heap, or the heap it
    /// was made over. What the heap behind the lock is now is another
    /// matter, and known only to whoever holds the lock.
    pub closed spec fn made_with(&self) -> Option<HeapView> {
        slot_made_with(self.0)
    }

    /// A locked heap that has no range yet. Until [`LockedHeap::init`] gives
    /// it one, every request fails as uninitialized.
    pub fn empty() -> (r: LockedHeap)
        ensures
            r.made_with() is None,
    {
        LockedHeap(mutex_new(HeapSlot::empty()))
    }

    /// Gives the heap the range `[heap_start_addr, heap_start_addr + size)`.
    pub fn init(&self, heap_start_addr: usize, size: usize)
        requires
            HeapView::valid_range(heap_start_addr, size),
    {
        let mut guard = mutex_lock(&self.0);
        let slot = guard_slot(&mut guard);
        slot.init(heap_start_addr, size);
    }

    /// A locked heap over `[heap_start_addr, heap_start_addr + heap_size)`:
    /// the lock is made around a fresh heap over that range.
    pub fn new(heap_start_addr: usize, heap_size: usize) -> (r: LockedHeap)
        requires
            HeapView::valid_range(heap_start_addr, heap_size),
        ensures
            r.made_with() == Some(HeapView::fresh(heap_start_addr, heap_size)),
    {
        let mut slot = HeapSlot::empty();
        slot.init(heap_start_addr, heap_size);
        LockedHeap(mutex_new(slot))
    }

    /// Serves a request under the lock. A block that is returned comes from
    /// the class that serves the layout: it is at least as long as the
    /// request, aligned to the block size, and aligned as the request asks.
    /// `Large` is returned for the requests of the large-block allocator and
    /// for no other.
    pub fn allocate(&self, layout: Layout) -> (r: Result<Allocation, LockedHeapError>)
        ensures
            match r {
                Ok(Allocation::Block(ptr)) => {
                    let which = HeapAllocator::of(layout);
                    &&& which != HeapAllocator::Large
                    &&& layout.size() <= which.block_size()->0
                    &&& (ptr as int) % (which.block_size()->0 as int) == 0
                    &&& (ptr as int) % (layout.align() as int) == 0
                },
                Ok(Allocation::Large) => HeapAllocator::of(layout) == HeapAllocator::Large,
                Err(LockedHeapError::OutOfMemory) => HeapAllocator::of(layout)
                    != HeapAllocator::Large,
                Err(LockedHeapError::Uninitialized) => true,
                Err(_) => false,
            },
    {
        let mut guard = mutex_lock(&self.0);
        let slot = guard_slot(&mut guard);
        slot.allocate(layout)
    }

    /// Gives a block back under the lock. The call fails, and changes
    /// nothing, where the heap has no range yet, or where the layout belongs
    /// to a class that has not handed out `ptr`. So a class takes back only
    /// what can be one of its blocks: an address on a multiple of its block
    /// size, with a whole block between it and the end of the address space.
    pub fn deallocate(&self, ptr: usize, layout: Layout) -> (r: Result<(), LockedHeapError>)
        ensures
            match r {
                Ok(_) => {
                    let which = HeapAllocator::of(layout);
                    which != HeapAllocator::Large ==> (ptr as int) % (which.block_size()->0 as int)
                        == 0 && ptr + which.block_size()->0 <= usize::MAX
                },
                Err(LockedHeapError::NotAllocated) => HeapAllocator::of(layout)
                    != HeapAllocator::Large,
                Err(LockedHeapError::Uninitialized) => true,
                Err(_) => false,
            },
    {
        let mut guard = mutex_lock(&self.0);
        let slot = guard_slot(&mut guard);
        let ghost found = slot@;
        let r = slot.deallocate(ptr, layout);
        proof {
            if r is Ok && HeapAllocator::of(layout) != HeapAllocator::Large {
                found->0.lemma_allocated_block(ptr, layout);
            }
        }
        r
    }

    /// Hands a range to a sub-allocator under the lock. The call fails, and
    /// changes nothing, where the heap has no range yet or cannot take this
    /// one.
    pub fn grow(&self, start: usize, length: usize, which: HeapAllocator) -> (r: Result<
        (),
        LockedHeapError,
    >)
        ensures
            match r {
                Ok(_) => which != HeapAllocator::Large ==> (Extent { start, length }).aligned_to(
                    which.block_size()->0 as int,
                ),
                Err(LockedHeapError::Uninitialized) => true,
                Err(LockedHeapError::CannotGrow) => true,
                Err(_) => false,
            },
    {
        let mut guard = mutex_lock(&self.0);
        let slot = guard_slot(&mut guard);
        proof {
            use_type_invariant(&*slot);
        }
        slot.grow(start, length, which)
    }

    /// The least and the greatest number of bytes that an allocation with
    /// `layout` can use; fails where the heap has no range yet.
    pub fn usable_size(&self, layout: &Layout) -> (r: Result<(usize, usize), LockedHeapError>)
        ensures
            match r {
                Ok(bounds) => bounds == HeapView::usable_size(*layout),
                Err(e) => e == LockedHeapError::Uninitialized,
            },
    {
        let mut guard = mutex_lock(&self.0);
        let slot = guard_slot(&mut guard);
        slot.usable_size(layout)
    }

    /// Number of free blocks of the class `which` at the time of the call;
    /// nothing for the large-block allocator, or where the heap has no range
    /// yet.
    pub fn free_blocks(&self, which: HeapAllocator) -> (r: Option<usize>)
        ensures
            which == HeapAllocator::Large ==> r is None,
    {
        let mut guard = mutex_lock(&self.0);
        let slot = guard_slot(&mut guard);
        slot.free_blocks(which)
    }
}

} // verus!
