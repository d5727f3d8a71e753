//! One class of fixed-size blocks and its free list.
use vstd::prelude::*;
use vstd::arithmetic::power2::is_pow2;
use vstd::layout::size_of;
use crate::extent::Extent;

verus! {

/// Failure of an allocation: the class asked has no free block.
#[derive(Clone, Copy, Debug, PartialEq, Eq)]
pub struct OutOfMemory;

/// The state of a class of blocks: the size of a block, the ranges the class
/// owns in the order it was given them, and the free list, head first.
pub struct SlabView {
    pub block_size: usize,
    pub extents: Seq<Extent>,
    pub free: Seq<usize>,
}

impl SlabView {
    /// `addr` is where one of the class's blocks starts.
    pub open spec fn owns(self, addr: usize) -> bool {
        exists|i: int|
            0 <= i < self.extents.len() && (#[trigger] self.extents[i]).has_block(
                self.block_size as int,
                addr,
            )
    }

    /// `addr` is a block of the class that is handed out.
    pub open spec fn is_allocated(self, addr: usize) -> bool {
        self.owns(addr) && !self.free.contains(addr)
    }

    /// What every class maintains: the block size is a power of two that
    /// holds a machine word; each range is cut into whole aligned blocks; no
    /// two ranges overlap; the free list holds blocks of the class, each once.
    pub open spec fn wf(self) -> bool {
        &&& is_pow2(self.block_size as int)
        &&& self.block_size >= size_of::<usize>()
        &&& self.extents.len() > 0
        &&& forall|i: int|
            0 <= i < self.extents.len() ==> (#[trigger] self.extents[i]).aligned_to(
                self.block_size as int,
            )
        &&& forall|i: int, j: int|
            0 <= i < self.extents.len() && 0 <= j < self.extents.len() && i != j ==> (
            #[trigger] self.extents[i]).disjoint(#[trigger] self.extents[j])
        &&& forall|k: int| 0 <= k < self.free.len() ==> self.owns(#[trigger] self.free[k])
        &&& self.free.no_duplicates()
    }

    /// A class that owns one range, all of whose blocks are free, the lowest
    /// at the head of the list.
    pub open spec fn fresh(start: usize, length: usize, block_size: usize) -> SlabView {
        let extent = Extent { start, length };
        SlabView { block_size, extents: seq![extent], free: extent.blocks(block_size as int) }
    }

    /// What an allocation returns: the head of the free list.
    pub open spec fn next_block(self) -> Result<usize, OutOfMemory> {
        if self.free.len() > 0 {
            Ok(self.free[0])
        } else {
            Err(OutOfMemory)
        }
    }

    /// The state after an allocation: the free list without its head.
    pub open spec fn allocate(self) -> SlabView {
        if self.free.len() > 0 {
            SlabView { free: self.free.drop_first(), ..self }
        } else {
            self
        }
    }

    /// The state after `ptr` is given back: `ptr` is the new head.
    pub open spec fn deallocate(self, ptr: usize) -> SlabView {
        SlabView { free: seq![ptr] + self.free, ..self }
    }

    /// No range of the class overlaps `extent`.
    pub open spec fn disjoint_from(self, extent: Extent) -> bool {
        forall|i: int|
            0 <= i < self.extents.len() ==> (#[trigger] self.extents[i]).disjoint(extent)
    }

    /// Whether the class can take the range over: it is cut into whole
    /// aligned blocks and overlaps nothing the class owns.
    pub open spec fn can_grow(self, start: usize, length: usize) -> bool {
        let extent = Extent { start, length };
        extent.aligned_to(self.block_size as int) && self.disjoint_from(extent)
    }

    /// The state after the class took the range over: its blocks stand before
    /// the rest of the free list, the lowest first.
    pub open spec fn grow(self, start: usize, length: usize) -> SlabView {
        let extent = Extent { start, length };
        SlabView {
            extents: self.extents.push(extent),
            free: extent.blocks(self.block_size as int) + self.free,
            ..self
        }
    }

    /// A fresh class is well formed.
    pub proof fn lemma_fresh_wf(start: usize, length: usize, block_size: usize)
        requires
            (Extent { start, length }).aligned_to(block_size as int),
            is_pow2(block_size as int),
            block_size >= size_of::<usize>(),
        ensures
            Self::fresh(start, length, block_size).wf(),
    {
        let extent = Extent { start, length };
        let v = Self::fresh(start, length, block_size);
        let bs = block_size as int;
        assert forall|k: int| 0 <= k < v.free.len() implies v.owns(#[trigger] v.free[k]) by {
            extent.lemma_block(bs, k);
            assert(v.extents[0].has_block(bs, v.free[k]));
        }
        assert forall|i: int, j: int|
            0 <= i < v.free.len() && 0 <= j < v.free.len() && i != j implies v.free[i]
            != v.free[j] by {
            extent.lemma_block(bs, i);
            extent.lemma_block(bs, j);
        }
    }

    /// An allocation keeps the class well formed, and what it returns was a
    /// free block of the class, aligned to the block size.
    pub proof fn lemma_allocate_wf(self)
        requires
            self.wf(),
        ensures
            self.allocate().wf(),
            self.next_block() matches Ok(ptr) ==> {
                &&& self.owns(ptr)
                &&& !self.is_allocated(ptr)
                &&& self.allocate().is_allocated(ptr)
                &&& (ptr as int) % (self.block_size as int) == 0
            },
    {
        let post = self.allocate();
        if self.free.len() > 0 {
            let ptr = self.free[0];
            assert forall|k: int| 0 <= k < post.free.len() implies post.owns(
                #[trigger] post.free[k],
            ) by {
                assert(post.free[k] == self.free[k + 1]);
                assert(self.owns(self.free[k + 1]));
                assert(post.extents == self.extents);
            }
            assert(self.owns(ptr));
            let i = choose|i: int|
                0 <= i < self.extents.len() && (#[trigger] self.extents[i]).has_block(
                    self.block_size as int,
                    ptr,
                );
            self.extents[i].lemma_block_index(self.block_size as int, ptr);
            assert(!post.free.contains(ptr)) by {
                if post.free.contains(ptr) {
                    let k = choose|k: int| 0 <= k < post.free.len() && post.free[k] == ptr;
                    assert(self.free[k + 1] == ptr);
                }
            }
        }
    }

    /// Giving back an allocated block keeps the class well formed.
    pub proof fn lemma_deallocate_wf(self, ptr: usize)
        requires
            self.wf(),
            self.is_allocated(ptr),
        ensures
            self.deallocate(ptr).wf(),
            !self.deallocate(ptr).is_allocated(ptr),
    {
        let post = self.deallocate(ptr);
        assert forall|k: int| 0 <= k < post.free.len() implies post.owns(
            #[trigger] post.free[k],
        ) by {
            assert(post.extents == self.extents);
            if k > 0 {
                assert(post.free[k] == self.free[k - 1]);
                assert(self.owns(self.free[k - 1]));
            } else {
                assert(post.free[k] == ptr);
            }
        }
        assert forall|i: int, j: int|
            0 <= i < post.free.len() && 0 <= j < post.free.len() && i != j implies post.free[i]
            != post.free[j] by {
            if i > 0 {
                assert(post.free[i] == self.free[i - 1]);
            }
            if j > 0 {
                assert(post.free[j] == self.free[j - 1]);
            }
        }
        assert(post.free[0] == ptr);
    }

    /// Taking a range over keeps the class well formed.
    pub proof fn lemma_grow_wf(self, start: usize, length: usize)
        requires
            self.wf(),
            self.can_grow(start, length),
        ensures
            self.grow(start, length).wf(),
    {
        let extent = Extent { start, length };
        let post = self.grow(start, length);
        let bs = self.block_size as int;
        let fresh = extent.blocks(bs);
        let n = self.extents.len() as int;
        assert(post.extents[n] == extent);
        assert forall|i: int| 0 <= i < post.extents.len() implies (
        #[trigger] post.extents[i]).aligned_to(bs) by {
            if i < n {
                assert(post.extents[i] == self.extents[i]);
            }
        }
        assert forall|i: int, j: int|
            0 <= i < post.extents.len() && 0 <= j < post.extents.len() && i != j implies (
        #[trigger] post.extents[i]).disjoint(#[trigger] post.extents[j]) by {
            if i < n {
                assert(post.extents[i] == self.extents[i]);
            }
            if j < n {
                assert(post.extents[j] == self.extents[j]);
            }
        }
        assert forall|k: int| 0 <= k < post.free.len() implies post.owns(
            #[trigger] post.free[k],
        ) by {
            if k < fresh.len() {
                extent.lemma_block(bs, k);
                assert(post.extents[n].has_block(bs, post.free[k]));
            } else {
                let old_k = k - fresh.len();
                assert(post.free[k] == self.free[old_k]);
                assert(self.owns(self.free[old_k]));
                let i = choose|i: int|
                    0 <= i < self.extents.len() && (#[trigger] self.extents[i]).has_block(
                        bs,
                        self.free[old_k],
                    );
                assert(post.extents[i].has_block(bs, post.free[k]));
            }
        }
        assert forall|i: int, j: int|
            0 <= i < post.free.len() && 0 <= j < post.free.len() && i != j implies post.free[i]
            != post.free[j] by {
            self.lemma_grow_distinct(start, length, i, j);
        }
    }

    proof fn lemma_grow_distinct(self, start: usize, length: usize, i: int, j: int)
        requires
            self.wf(),
            self.can_grow(start, length),
            0 <= i < self.grow(start, length).free.len(),
            0 <= j < self.grow(start, length).free.len(),
            i != j,
        ensures
            self.grow(start, length).free[i] != self.grow(start, length).free[j],
    {
        let extent = Extent { start, length };
        let post = self.grow(start, length);
        let bs = self.block_size as int;
        let fresh = extent.blocks(bs);
        if i < fresh.len() && j < fresh.len() {
            extent.lemma_block(bs, i);
            extent.lemma_block(bs, j);
        } else if i >= fresh.len() && j >= fresh.len() {
            assert(post.free[i] == self.free[i - fresh.len()]);
            assert(post.free[j] == self.free[j - fresh.len()]);
        } else {
            let (a, b) = if i < fresh.len() {
                (i, j)
            } else {
                (j, i)
            };
            extent.lemma_block(bs, a);
            let old_b = b - fresh.len();
            assert(post.free[b] == self.free[old_b]);
            assert(self.owns(self.free[old_b]));
            let e = choose|e: int|
                0 <= e < self.extents.len() && (#[trigger] self.extents[e]).has_block(
                    bs,
                    self.free[old_b],
                );
            assert(self.extents[e].disjoint(extent));
        }
    }
}

/// A class of fixed-size blocks over the ranges it was given.
///
/// The free list is kept as a stack of block addresses, its head on top, so
/// that taking a block and giving one back each take one step.
pub struct Slab {
    block_size: usize,
    extents: Vec<Extent>,
    free: Vec<usize>,
}

impl View for Slab {
    type V = SlabView;

    closed spec fn view(&self) -> SlabView {
        SlabView {
            block_size: self.block_size,
            extents: self.extents@,
            free: self.free@.reverse(),
        }
    }
}

/// Puts the blocks of the range on the stack, the highest first, so that the
/// lowest ends up on top.
fn push_blocks(stack: &mut Vec<usize>, start: usize, length: usize, block_size: usize)
    requires
        (Extent { start, length }).aligned_to(block_size as int),
    ensures
        final(stack)@.reverse() == (Extent { start, length }).blocks(block_size as int) + old(
            stack,
        )@.reverse(),
{
    let ghost extent = Extent { start, length };
    let ghost bs = block_size as int;
    let ghost blocks = extent.blocks(bs);
    let count: usize = length / block_size;
    let mut i: usize = count;
    while i > 0
        invariant
            extent == (Extent { start, length }),
            extent.aligned_to(bs),
            bs == block_size as int,
            blocks == extent.blocks(bs),
            count == extent.block_count(bs),
            i <= count,
            stack@.len() == old(stack)@.len() + (count - i),
            forall|k: int| 0 <= k < old(stack)@.len() ==> stack@[k] == old(stack)@[k],
            forall|k: int|
                old(stack)@.len() <= k < stack@.len() ==> stack@[k] == blocks[count - 1 - (k - old(
                    stack,
                )@.len())],
        decreases i,
    {
        i = i - 1;
        proof {
            extent.lemma_block(bs, i as int);
            assert(i * block_size == (i as int) * bs);
        }
        let addr: usize = start + i * block_size;
        stack.push(addr);
    }
    proof {
        let pre = old(stack)@;
        let post = stack@;
        assert(post.reverse() =~= blocks + pre.reverse()) by {
            assert(post.reverse().len() == blocks.len() + pre.reverse().len());
            assert forall|k: int| 0 <= k < post.len() implies post.reverse()[k] == (blocks
                + pre.reverse())[k] by {
                if k < count {
                    assert(post[post.len() - 1 - k] == blocks[k]);
                }
            }
        }
    }
}

impl Slab {
    /// A class of blocks of `block_size` bytes over `[start, start + length)`.
    /// All blocks are free; they will be handed out from the lowest up.
    pub fn new(start: usize, length: usize, block_size: usize) -> (slab: Slab)
        requires
            (Extent { start, length }).aligned_to(block_size as int),
            is_pow2(block_size as int),
            block_size >= size_of::<usize>(),
        ensures
            slab@ == SlabView::fresh(start, length, block_size),
            slab@.wf(),
    {
        let mut free: Vec<usize> = Vec::new();
        push_blocks(&mut free, start, length, block_size);
        let mut extents: Vec<Extent> = Vec::new();
        extents.push(Extent { start, length });
        let slab = Slab { block_size, extents, free };
        proof {
            SlabView::lemma_fresh_wf(start, length, block_size);
            assert(slab@.extents =~= seq![Extent { start, length }]);
            assert(slab@.free =~= (Extent { start, length }).blocks(block_size as int));
        }
        slab
    }

    /// Takes the block at the head of the free list, or fails where the list
    /// is empty.
    pub fn allocate(&mut self) -> (r: Result<usize, OutOfMemory>)
        requires
            old(self)@.wf(),
        ensures
            final(self)@.wf(),
            final(self)@ == old(self)@.allocate(),
            r == old(self)@.next_block(),
            r matches Ok(ptr) ==> {
                &&& old(self)@.owns(ptr)
                &&& !old(self)@.is_allocated(ptr)
                &&& final(self)@.is_allocated(ptr)
                &&& (ptr as int) % (old(self)@.block_size as int) == 0
            },
    {
        proof {
            old(self)@.lemma_allocate_wf();
        }
        let ghost stack = self.free@;
        match self.free.pop() {
            Some(ptr) => {
                proof {
                    assert(self.free@.reverse() =~= stack.reverse().drop_first());
                }
                Ok(ptr)
            },
            None => Err(OutOfMemory),
        }
    }

    /// The block at the head of the free list, which the next allocation
    /// takes; nothing where the list is empty.
    pub fn head(&self) -> (r: Option<usize>)
        ensures
            r == match self@.next_block() {
                Ok(ptr) => Some(ptr),
                Err(_) => None::<usize>,
            },
    {
        let n: usize = self.free.len();
        if n == 0 {
            None
        } else {
            Some(self.free[n - 1])
        }
    }

    /// Gives the block at `ptr` back. It becomes the head of the free list.
    pub fn deallocate(&mut self, ptr: usize)
        requires
            old(self)@.wf(),
            old(self)@.is_allocated(ptr),
        ensures
            final(self)@.wf(),
            final(self)@ == old(self)@.deallocate(ptr),
    {
        proof {
            old(self)@.lemma_deallocate_wf(ptr);
        }
        let ghost stack = self.free@;
        self.free.push(ptr);
        proof {
            assert(self.free@.reverse() =~= seq![ptr] + stack.reverse());
        }
    }

    /// Hands the class the range `[start, start + length)`. Its blocks are
    /// put before the rest of the free list, the lowest first.
    pub fn grow(&mut self, start: usize, length: usize)
        requires
            old(self)@.wf(),
            old(self)@.can_grow(start, length),
        ensures
            final(self)@.wf(),
            final(self)@ == old(self)@.grow(start, length),
    {
        proof {
            old(self)@.lemma_grow_wf(start, length);
        }
        push_blocks(&mut self.free, start, length, self.block_size);
        self.extents.push(Extent { start, length });
    }

    /// Size of a block in bytes.
    pub fn block_size(&self) -> (r: usize)
        ensures
            r == self@.block_size,
    {
        self.block_size
    }

    /// Number of free blocks.
    pub fn free_blocks(&self) -> (r: usize)
        ensures
            r == self@.free.len(),
    {
        self.free.len()
    }

    /// Whether `addr` is where one of the class's blocks starts.
    pub fn owns(&self, addr: usize) -> (r: bool)
        requires
            self@.wf(),
        ensures
            r == self@.owns(addr),
    {
        let mut i: usize = 0;
        while i < self.extents.len()
            invariant
                i <= self.extents@.len(),
                self@.wf(),
                forall|k: int|
                    0 <= k < i ==> !(#[trigger] self.extents@[k]).has_block(
                        self.block_size as int,
                        addr,
                    ),
            decreases self.extents@.len() - i,
        {
            proof {
                assert(self@.extents[i as int].aligned_to(self.block_size as int));
            }
            if self.extents[i].starts_block(self.block_size, addr) {
                return true;
            }
            i = i + 1;
        }
        false
    }

    /// Whether `addr` is a block of the class that is handed out.
    pub fn is_allocated(&self, addr: usize) -> (r: bool)
        requires
            self@.wf(),
        ensures
            r == self@.is_allocated(addr),
    {
        if !self.owns(addr) {
            return false;
        }
        let mut i: usize = 0;
        while i < self.free.len()
            invariant
                i <= self.free@.len(),
                forall|k: int| 0 <= k < i ==> self.free@[k] != addr,
            decreases self.free@.len() - i,
        {
            if self.free[i] == addr {
                proof {
                    let n = self.free@.len() as int;
                    assert(self.free@.reverse()[n - 1 - i] == addr);
                }
                return false;
            }
            i = i + 1;
        }
        proof {
            let n = self.free@.len() as int;
            if self.free@.reverse().contains(addr) {
                let k = choose|k: int| 0 <= k < n && self.free@.reverse()[k] == addr;
                assert(self.free@[n - 1 - k] == addr);
            }
        }
        true
    }

    /// Whether no range of the class overlaps `extent`.
    pub fn is_disjoint_from(&self, extent: &Extent) -> (r: bool)
        ensures
            r == self@.disjoint_from(*extent),
    {
        let mut i: usize = 0;
        while i < self.extents.len()
            invariant
                i <= self.extents@.len(),
                forall|k: int| 0 <= k < i ==> (#[trigger] self.extents@[k]).disjoint(*extent),
            decreases self.extents@.len() - i,
        {
            if !self.extents[i].is_disjoint(extent) {
                assert(!self@.extents[i as int].disjoint(*extent));
                return false;
            }
            i = i + 1;
        }
        true
    }

    /// Whether the class can take `[start, start + length)` over: the range
    /// is cut into whole aligned blocks and overlaps nothing the class owns.
    pub fn can_grow(&self, start: usize, length: usize) -> (r: bool)
        ensures
            r == self@.can_grow(start, length),
    {
        let extent = Extent { start, length };
        extent.is_aligned_to(self.block_size) && self.is_disjoint_from(&extent)
    }
}

} // verus!
