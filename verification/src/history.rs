//! Histories of requests, and what holds of a heap at the end of one.
use vstd::prelude::*;
use crate::heap::{Allocation, HeapAllocator, HeapView};
use crate::layout::Layout;
use crate::slab::{OutOfMemory, SlabView};

verus! {

/// One step in the history of a heap.
pub enum Request {
    /// An allocation with this layout.
    Allocate(Layout),
    /// The block at this address is given back with this layout.
    Deallocate(usize, Layout),
}

impl SlabView {
    /// An allocation takes the head of the free list out of the set of free
    /// blocks and leaves the others in.
    pub proof fn lemma_allocate_free_set(self)
        requires
            self.wf(),
            self.free.len() > 0,
        ensures
            self.allocate().free_set() == self.free_set().remove(self.free[0]),
            self.free_set().contains(self.free[0]),
    {
        let post = self.allocate();
        assert forall|addr: usize|
            post.free_set().contains(addr) <==> self.free_set().remove(self.free[0]).contains(
                addr,
            ) by {
            if post.free.contains(addr) {
                let k = choose|k: int| 0 <= k < post.free.len() && post.free[k] == addr;
                assert(self.free[k + 1] == addr);
            }
            if self.free.contains(addr) && addr != self.free[0] {
                let k = choose|k: int| 0 <= k < self.free.len() && self.free[k] == addr;
                assert(post.free[k - 1] == addr);
            }
        }
        assert(post.free_set() =~= self.free_set().remove(self.free[0]));
        assert(self.free[0] == self.free[0]);
    }

    /// Giving a block back puts it into the set of free blocks and leaves
    /// the others as they were.
    pub proof fn lemma_deallocate_free_set(self, ptr: usize)
        ensures
            self.deallocate(ptr).free_set() == self.free_set().insert(ptr),
    {
        let post = self.deallocate(ptr);
        assert forall|addr: usize|
            post.free_set().contains(addr) <==> self.free_set().insert(ptr).contains(addr) by {
            if post.free.contains(addr) {
                let k = choose|k: int| 0 <= k < post.free.len() && post.free[k] == addr;
                if k > 0 {
                    assert(self.free[k - 1] == addr);
                }
            }
            if self.free.contains(addr) {
                let k = choose|k: int| 0 <= k < self.free.len() && self.free[k] == addr;
                assert(post.free[k + 1] == addr);
            }
            assert(post.free[0] == ptr);
        }
        assert(post.free_set() =~= self.free_set().insert(ptr));
    }

    /// A block that is taken and given back at once leaves the class as it
    /// was: the free list is the same, in the same order.
    pub proof fn lemma_allocate_then_deallocate(self)
        requires
            self.free.len() > 0,
        ensures
            self.allocate().deallocate(self.free[0]) == self,
    {
        assert(self.allocate().deallocate(self.free[0]).free =~= self.free);
    }

    /// A fresh class has as many free blocks as its range holds, and they
    /// are all its blocks.
    pub proof fn lemma_fresh_capacity(start: usize, length: usize, block_size: usize)
        ensures
            Self::fresh(start, length, block_size).capacity() == (length as int) / (
            block_size as int),
            Self::fresh(start, length, block_size).free.len() == ((length as int) / (
            block_size as int)) as nat,
    {
        let v = Self::fresh(start, length, block_size);
        assert(v.extents.drop_last() =~= Seq::<crate::extent::Extent>::empty());
        assert(crate::partition::block_total(v.extents.drop_last(), block_size as int) == 0);
    }
}

impl HeapView {
    /// The state after one step.
    pub open spec fn step(self, request: Request) -> HeapView {
        match request {
            Request::Allocate(layout) => self.allocate(layout),
            Request::Deallocate(ptr, layout) => self.deallocate(ptr, layout),
        }
    }

    /// The state at the end of a history.
    pub open spec fn run(self, requests: Seq<Request>) -> HeapView
        decreases requests.len(),
    {
        if requests.len() == 0 {
            self
        } else {
            self.run(requests.drop_last()).step(requests.last())
        }
    }

    /// The blocks that a history has taken and not given back, each with the
    /// class it came from.
    pub open spec fn outstanding(self, requests: Seq<Request>) -> Set<(HeapAllocator, usize)>
        decreases requests.len(),
    {
        if requests.len() == 0 {
            Set::empty()
        } else {
            let before = requests.drop_last();
            let held = self.outstanding(before);
            match requests.last() {
                Request::Allocate(layout) => match self.run(before).allocation(layout) {
                    Ok(Allocation::Block(ptr)) => held.insert((HeapAllocator::of(layout), ptr)),
                    _ => held,
                },
                Request::Deallocate(ptr, layout) => held.remove((HeapAllocator::of(layout), ptr)),
            }
        }
    }

    /// Whether a history is made of pairs: every block that it gives back to
    /// a class is a block that it took from that class before and still
    /// held. (Blocks of the large-block allocator are not the heap's to
    /// follow.)
    pub open spec fn paired(self, requests: Seq<Request>) -> bool
        decreases requests.len(),
    {
        requests.len() > 0 ==> {
            let before = requests.drop_last();
            &&& self.paired(before)
            &&& match requests.last() {
                Request::Allocate(layout) => layout.wf(),
                Request::Deallocate(ptr, layout) => HeapAllocator::of(layout)
                    == HeapAllocator::Large || self.outstanding(before).contains(
                    (HeapAllocator::of(layout), ptr),
                ),
            }
        }
    }

    /// The blocks of the class `which` among `held`.
    pub open spec fn held_of(held: Set<(HeapAllocator, usize)>, which: HeapAllocator) -> Set<
        usize,
    > {
        Set::new(|ptr: usize| held.contains((which, ptr)))
    }

    /// What holds after every history of pairs: the heap is well formed, owns
    /// what it owned, and the free blocks of each class are those that were
    /// free at the start but for the blocks that the history still holds.
    spec fn tracks(self, now: HeapView, held: Set<(HeapAllocator, usize)>) -> bool {
        &&& now.wf()
        &&& now.large == self.large
        &&& forall|c: HeapAllocator|
            c != HeapAllocator::Large ==> (#[trigger] now.classes[c]).extents
                == self.classes[c].extents && now.classes[c].free_set()
                == self.classes[c].free_set().difference(Self::held_of(held, c))
        &&& forall|c: HeapAllocator, ptr: usize| #[trigger]
            held.contains((c, ptr)) ==> c != HeapAllocator::Large
                && self.classes[c].free_set().contains(ptr)
    }

    proof fn lemma_tracks(self, requests: Seq<Request>)
        requires
            self.wf(),
            self.paired(requests),
        ensures
            self.tracks(self.run(requests), self.outstanding(requests)),
        decreases requests.len(),
    {
        if requests.len() == 0 {
            assert forall|c: HeapAllocator| c != HeapAllocator::Large implies (
            #[trigger] self.classes[c]).free_set() == self.classes[c].free_set().difference(
                Self::held_of(Set::empty(), c),
            ) by {
                assert(self.classes[c].free_set() =~= self.classes[c].free_set().difference(
                    Self::held_of(Set::empty(), c),
                ));
            }
        } else {
            let before = requests.drop_last();
            let pre = self.run(before);
            let held = self.outstanding(before);
            let now = self.run(requests);
            let holds = self.outstanding(requests);
            self.lemma_tracks(before);
            match requests.last() {
                Request::Allocate(layout) => {
                    let which = HeapAllocator::of(layout);
                    pre.lemma_allocate(layout);
                    if which != HeapAllocator::Large && pre.classes[which].free.len() > 0 {
                        let class = pre.classes[which];
                        let ptr = class.free[0];
                        assert(class.wf());
                        class.lemma_allocate_free_set();
                        assert forall|c: HeapAllocator| c != HeapAllocator::Large implies (
                        #[trigger] now.classes[c]).extents == self.classes[c].extents
                            && now.classes[c].free_set() == self.classes[c].free_set().difference(
                            Self::held_of(holds, c),
                        ) by {
                            assert(pre.classes[c].extents == self.classes[c].extents);
                            assert(now.classes[c].free_set()
                                =~= self.classes[c].free_set().difference(
                                Self::held_of(holds, c),
                            ));
                        }
                    } else {
                        assert(now.classes =~= pre.classes);
                        assert(holds == held);
                    }
                },
                Request::Deallocate(ptr, layout) => {
                    let which = HeapAllocator::of(layout);
                    if which != HeapAllocator::Large {
                        let class = pre.classes[which];
                        assert(held.contains((which, ptr)));
                        assert(class.extents == self.classes[which].extents);
                        assert(self.classes[which].wf());
                        assert(class.wf());
                        assert(self.classes[which].owns(ptr)) by {
                            let k = choose|k: int|
                                0 <= k < self.classes[which].free.len()
                                    && self.classes[which].free[k] == ptr;
                            assert(self.classes[which].owns(self.classes[which].free[k]));
                        }
                        assert(class.owns(ptr)) by {
                            let i = choose|i: int|
                                0 <= i < self.classes[which].extents.len() && (
                                #[trigger] self.classes[which].extents[i]).has_block(
                                    self.classes[which].block_size as int,
                                    ptr,
                                );
                            assert(class.extents[i].has_block(class.block_size as int, ptr));
                        }
                        assert(!class.free_set().contains(ptr)) by {
                            assert(Self::held_of(held, which).contains(ptr));
                        }
                        pre.lemma_deallocate(ptr, layout);
                        class.lemma_deallocate_free_set(ptr);
                        assert forall|c: HeapAllocator| c != HeapAllocator::Large implies (
                        #[trigger] now.classes[c]).extents == self.classes[c].extents
                            && now.classes[c].free_set() == self.classes[c].free_set().difference(
                            Self::held_of(holds, c),
                        ) by {
                            assert(pre.classes[c].extents == self.classes[c].extents);
                            assert(now.classes[c].free_set()
                                =~= self.classes[c].free_set().difference(
                                Self::held_of(holds, c),
                            ));
                        }
                    } else {
                        assert(now == pre);
                        assert(holds =~= held);
                    }
                },
            }
        }
    }

    /// After a history of pairs that holds no block at its end, every class
    /// has the free blocks it started with.
    pub proof fn lemma_round_trip(self, requests: Seq<Request>, which: HeapAllocator)
        requires
            self.wf(),
            self.paired(requests),
            self.outstanding(requests) == Set::<(HeapAllocator, usize)>::empty(),
            which != HeapAllocator::Large,
        ensures
            self.run(requests).wf(),
            self.run(requests).classes[which].free_set() == self.classes[which].free_set(),
            self.run(requests).classes[which].extents == self.classes[which].extents,
    {
        self.lemma_tracks(requests);
        let now = self.run(requests);
        assert(now.classes[which].free_set() == self.classes[which].free_set().difference(
            Self::held_of(Set::empty(), which),
        ));
        assert(self.classes[which].free_set().difference(Self::held_of(Set::empty(), which))
            =~= self.classes[which].free_set());
    }

    /// A block that is taken and given back at once with the same layout
    /// leaves the heap as it was.
    pub proof fn lemma_allocate_then_deallocate(self, layout: Layout)
        requires
            self.wf(),
        ensures
            match self.allocation(layout) {
                Ok(Allocation::Block(ptr)) => self.allocate(layout).deallocate(ptr, layout)
                    == self,
                _ => self.allocate(layout) == self,
            },
    {
        let which = HeapAllocator::of(layout);
        if which != HeapAllocator::Large {
            let class = self.classes[which];
            if self.allocation(layout) is Ok {
                class.lemma_allocate_then_deallocate();
                assert(self.allocate(layout).deallocate(class.free[0], layout).classes
                    =~= self.classes);
            }
        }
    }

    /// Whether every step of the history is an allocation that the class
    /// `which` serves, for an alignment that every block of a class has:
    /// one of at most 4096.
    pub open spec fn allocates_from(requests: Seq<Request>, which: HeapAllocator) -> bool {
        forall|i: int|
            0 <= i < requests.len() ==> (#[trigger] requests[i] matches Request::Allocate(layout)
                && layout.wf() && HeapAllocator::of(layout) == which && layout.align() <= 4096)
    }

    /// After a run of allocations from one class, the free list of the class
    /// is what it was without the blocks at its head that the allocations
    /// took, one each for as long as there were any; the other classes are
    /// as they were.
    pub proof fn lemma_allocations(self, requests: Seq<Request>, which: HeapAllocator)
        requires
            self.wf(),
            which != HeapAllocator::Large,
            Self::allocates_from(requests, which),
        ensures
            self.run(requests).wf(),
            ({
                let free = self.classes[which].free;
                let taken = if requests.len() <= free.len() {
                    requests.len() as int
                } else {
                    free.len() as int
                };
                &&& self.run(requests).classes[which].free == free.subrange(
                    taken,
                    free.len() as int,
                )
                &&& self.run(requests).classes == self.classes.insert(
                    which,
                    self.run(requests).classes[which],
                )
                &&& self.run(requests).large == self.large
            }),
        decreases requests.len(),
    {
        let free = self.classes[which].free;
        if requests.len() == 0 {
            assert(free.subrange(0, free.len() as int) =~= free);
            assert(self.classes =~= self.classes.insert(which, self.classes[which]));
        } else {
            let before = requests.drop_last();
            assert forall|i: int| 0 <= i < before.len() implies (
            #[trigger] before[i] matches Request::Allocate(layout) && layout.wf()
                && HeapAllocator::of(layout) == which && layout.align() <= 4096) by {
                assert(before[i] == requests[i]);
            }
            self.lemma_allocations(before, which);
            let pre = self.run(before);
            let now = self.run(requests);
            assert(requests.last() == requests[requests.len() - 1]);
            if let Request::Allocate(layout) = requests.last() {
                pre.lemma_allocate(layout);
            }
            let taken = if before.len() <= free.len() {
                before.len() as int
            } else {
                free.len() as int
            };
            if pre.classes[which].free.len() > 0 {
                assert(now.classes[which].free =~= free.subrange(taken + 1, free.len() as int));
            } else {
                assert(now.classes[which].free =~= free.subrange(taken, free.len() as int));
            }
            assert(now.classes =~= self.classes.insert(which, now.classes[which]));
        }
    }

    /// A class of a fresh heap serves exactly as many allocations as its
    /// share holds blocks: after fewer, the next one gets a block; after
    /// that many, the next one fails for want of memory. This is said of
    /// requests for an alignment of at most 4096, which every block has.
    pub proof fn lemma_exhaustion(
        heap_start: usize,
        heap_size: usize,
        requests: Seq<Request>,
        next: Layout,
    )
        requires
            Self::valid_range(heap_start, heap_size),
            next.wf(),
            next.align() <= 4096,
            HeapAllocator::of(next) != HeapAllocator::Large,
            Self::allocates_from(requests, HeapAllocator::of(next)),
        ensures
            ({
                let which = HeapAllocator::of(next);
                let share = Self::share(heap_start, heap_size, which);
                let blocks = share.block_count(which.block_size()->0 as int);
                let heap = Self::fresh(heap_start, heap_size).run(requests);
                &&& blocks == (heap_size / 8) as int / (which.block_size()->0 as int)
                &&& blocks == Self::fresh(heap_start, heap_size).classes[which].capacity()
                &&& blocks > 0
                &&& requests.len() < blocks ==> heap.allocation(next) == Ok::<
                    Allocation,
                    OutOfMemory,
                >(
                    Allocation::Block(
                        share.block(which.block_size()->0 as int, requests.len() as int),
                    ),
                )
                &&& requests.len() >= blocks ==> heap.allocation(next) == Err::<
                    Allocation,
                    OutOfMemory,
                >(OutOfMemory)
            }),
    {
        let which = HeapAllocator::of(next);
        let bs = which.block_size()->0 as int;
        let share = Self::share(heap_start, heap_size, which);
        let fresh = Self::fresh(heap_start, heap_size);
        Self::lemma_shares(heap_start, heap_size, which);
        crate::heap::lemma_block_sizes(which);
        Self::lemma_fresh_wf(heap_start, heap_size);
        fresh.lemma_allocations(requests, which);
        fresh.run(requests).lemma_allocate(next);
        SlabView::lemma_fresh_capacity(share.start, share.length, which.block_size()->0);
        assert(share.block_count(bs) > 0) by (nonlinear_arith)
            requires
                share.block_count(bs) == (share.length as int) / bs,
                (share.length as int) % bs == 0,
                share.length > 0,
                bs > 0,
        ;
    }
}

} // verus!
