//! The heap: seven classes of blocks, the region of the large-block
//! allocator, and the rule that sends each request to one of them.
use vstd::prelude::*;
use vstd::arithmetic::power2::is_pow2;
use vstd::layout::size_of;
use crate::extent::Extent;
use crate::layout::Layout;
use crate::slab::{OutOfMemory, Slab, SlabView};

verus! {

/// The sub-allocators of a heap: the seven block classes, named by their
/// block size in bytes, and the large-block allocator.
#[derive(Clone, Copy, Debug, PartialEq, Eq, Structural)]
pub enum HeapAllocator {
    Slab64,
    Slab128,
    Slab256,
    Slab512,
    Slab1024,
    Slab2048,
    Slab4096,
    Large,
}

impl HeapAllocator {
    /// Position of the sub-allocator in a heap, in the order in which the
    /// heap's range is shared out.
    pub open spec fn index(self) -> int {
        match self {
            HeapAllocator::Slab64 => 0,
            HeapAllocator::Slab128 => 1,
            HeapAllocator::Slab256 => 2,
            HeapAllocator::Slab512 => 3,
            HeapAllocator::Slab1024 => 4,
            HeapAllocator::Slab2048 => 5,
            HeapAllocator::Slab4096 => 6,
            HeapAllocator::Large => 7,
        }
    }

    /// The block size of a class; the large-block allocator has none.
    pub open spec fn spec_block_size(self) -> Option<usize> {
        match self {
            HeapAllocator::Slab64 => Some(64),
            HeapAllocator::Slab128 => Some(128),
            HeapAllocator::Slab256 => Some(256),
            HeapAllocator::Slab512 => Some(512),
            HeapAllocator::Slab1024 => Some(1024),
            HeapAllocator::Slab2048 => Some(2048),
            HeapAllocator::Slab4096 => Some(4096),
            HeapAllocator::Large => None,
        }
    }

    /// The sub-allocator that serves a request of `size` bytes aligned to
    /// `align`: the large-block allocator for more than 4096 bytes, else the
    /// first class whose blocks are both long enough and aligned enough, and
    /// the class of 4096-byte blocks where none is.
    pub open spec fn serving(size: usize, align: usize) -> HeapAllocator {
        if size > 4096 {
            HeapAllocator::Large
        } else if size <= 64 && align <= 64 {
            HeapAllocator::Slab64
        } else if size <= 128 && align <= 128 {
            HeapAllocator::Slab128
        } else if size <= 256 && align <= 256 {
            HeapAllocator::Slab256
        } else if size <= 512 && align <= 512 {
            HeapAllocator::Slab512
        } else if size <= 1024 && align <= 1024 {
            HeapAllocator::Slab1024
        } else if size <= 2048 && align <= 2048 {
            HeapAllocator::Slab2048
        } else {
            HeapAllocator::Slab4096
        }
    }

    /// The sub-allocator that serves `layout`.
    pub open spec fn of(layout: Layout) -> HeapAllocator {
        Self::serving(layout.size(), layout.align())
    }

    /// Every request of at most 4096 bytes aligned to at most 4096 goes to
    /// a class whose blocks are at least as long as the request and at least
    /// as aligned.
    pub proof fn lemma_serving_fits(size: usize, align: usize)
        requires
            size <= 4096,
            align <= 4096,
        ensures
            Self::serving(size, align) != HeapAllocator::Large,
            size <= Self::serving(size, align).block_size()->0,
            align <= Self::serving(size, align).block_size()->0,
    {
    }

    /// The block size of a class; the large-block allocator has none.
    #[verifier::when_used_as_spec(spec_block_size)]
    pub fn block_size(self) -> (r: Option<usize>)
        ensures
            r == self.block_size(),
    {
        match self {
            HeapAllocator::Slab64 => Some(64),
            HeapAllocator::Slab128 => Some(128),
            HeapAllocator::Slab256 => Some(256),
            HeapAllocator::Slab512 => Some(512),
            HeapAllocator::Slab1024 => Some(1024),
            HeapAllocator::Slab2048 => Some(2048),
            HeapAllocator::Slab4096 => Some(4096),
            HeapAllocator::Large => None,
        }
    }
}

/// The sub-allocator that serves a request depends on the size and the
/// alignment asked for and on nothing else: no state of any heap enters.
pub proof fn lemma_serving_is_a_function(a: Layout, b: Layout)
    requires
        a.size() == b.size(),
        a.align() == b.align(),
    ensures
        HeapAllocator::of(a) == HeapAllocator::of(b),
{
}

/// Every block size is a power of two that holds a machine word and divides
/// a page.
pub proof fn lemma_block_sizes(which: HeapAllocator)
    requires
        which != HeapAllocator::Large,
    ensures
        is_pow2(which.block_size()->0 as int),
        which.block_size()->0 >= size_of::<usize>(),
        4096int % (which.block_size()->0 as int) == 0,
{
    broadcast use vstd::layout::layout_of_primitives;

    reveal_with_fuel(is_pow2, 13);
    match which {
        HeapAllocator::Slab64 => assert(4096int % 64 == 0),
        HeapAllocator::Slab128 => assert(4096int % 128 == 0),
        HeapAllocator::Slab256 => assert(4096int % 256 == 0),
        HeapAllocator::Slab512 => assert(4096int % 512 == 0),
        HeapAllocator::Slab1024 => assert(4096int % 1024 == 0),
        HeapAllocator::Slab2048 => assert(4096int % 2048 == 0),
        _ => assert(4096int % 4096 == 0),
    }
}

/// Where a range that starts on a page and is made of whole groups of eight
/// pages is cut into eight equal parts, each part is made of whole pages and
/// starts on a page, and the parts lie side by side within the range.
#[verifier::spinoff_prover]
proof fn lemma_share_arithmetic(start: int, size: int, index: int)
    requires
        start % 4096 == 0,
        size >= 32768,
        size % 32768 == 0,
        0 <= index <= 7,
    ensures
        size == 8 * (size / 8),
        (size / 8) % 4096 == 0,
        size / 8 >= 4096,
        0 <= index * (size / 8),
        (index + 1) * (size / 8) == index * (size / 8) + size / 8,
        index * (size / 8) + size / 8 <= size,
        (start + index * (size / 8)) % 4096 == 0,
{
    let part = size / 8;
    let pages = part / 4096;
    let offset = index * part;
    assert(part == 4096 * pages);
    assert(0 <= offset && offset + part <= 8 * part && (index + 1) * part == offset + part)
        by (nonlinear_arith)
        requires
            0 <= index <= 7,
            part >= 0,
            offset == index * part,
    ;
    assert(offset == (index * pages) * 4096) by (nonlinear_arith)
        requires
            offset == index * part,
            part == 4096 * pages,
    ;
    vstd::arithmetic::div_mod::lemma_mod_multiples_basic(index * pages, 4096);
    assert(offset % 4096 == 0);
}

/// How a request was served.
#[derive(Clone, Copy, Debug, PartialEq, Eq)]
pub enum Allocation {
    /// A block of one of the classes, at this address.
    Block(usize),
    /// Nothing was taken: the request belongs to the large-block allocator.
    Large,
}

/// The state of a heap: the state of each class, and the range that the
/// large-block allocator owns.
pub struct HeapView {
    pub classes: Map<HeapAllocator, SlabView>,
    pub large: Extent,
}

impl HeapView {
    /// What every heap maintains: it has the seven classes, each well formed
    /// and of its own block size, and no two ranges of the heap overlap,
    /// whether they belong to one class, to two, or to the large-block
    /// allocator.
    pub open spec fn wf(self) -> bool {
        &&& forall|c: HeapAllocator| self.classes.dom().contains(c) <==> c != HeapAllocator::Large
        &&& forall|c: HeapAllocator|
            c != HeapAllocator::Large ==> (#[trigger] self.classes[c]).wf()
                && self.classes[c].block_size == c.block_size()->0
        &&& self.large.end() <= usize::MAX
        &&& forall|c: HeapAllocator, i: int|
            c != HeapAllocator::Large && 0 <= i < self.classes[c].extents.len() ==> (
            #[trigger] self.classes[c].extents[i]).disjoint(self.large)
        &&& forall|c: HeapAllocator, d: HeapAllocator, i: int, j: int|
            c != HeapAllocator::Large && d != HeapAllocator::Large && c != d && 0 <= i
                < self.classes[c].extents.len() && 0 <= j < self.classes[d].extents.len() ==> (
            #[trigger] self.classes[c].extents[i]).disjoint(#[trigger] self.classes[d].extents[j])
    }

    /// Whether a heap can be made over `[heap_start, heap_start + heap_size)`:
    /// the range starts on a page, holds a page for each sub-allocator, is
    /// shared out in whole pages, and does not wrap around the address space.
    pub open spec fn valid_range(heap_start: usize, heap_size: usize) -> bool {
        &&& heap_start % 4096 == 0
        &&& heap_size >= crate::MIN_HEAP_SIZE
        &&& heap_size % crate::MIN_HEAP_SIZE == 0
        &&& heap_start + heap_size <= usize::MAX
    }

    /// The share of the sub-allocator `which` in a heap made over
    /// `[heap_start, heap_start + heap_size)`: the range is cut into eight
    /// equal parts, handed out from the class of the smallest blocks up, the
    /// last to the large-block allocator.
    pub open spec fn share(heap_start: usize, heap_size: usize, which: HeapAllocator) -> Extent {
        let part = heap_size / crate::NUM_OF_SLABS;
        Extent { start: (heap_start + which.index() * part) as usize, length: part }
    }

    /// The heap made over `[heap_start, heap_start + heap_size)`: every class
    /// is fresh over its share.
    pub open spec fn fresh(heap_start: usize, heap_size: usize) -> HeapView {
        HeapView {
            classes: Map::new(
                |c: HeapAllocator| c != HeapAllocator::Large,
                |c: HeapAllocator|
                    {
                        let share = Self::share(heap_start, heap_size, c);
                        SlabView::fresh(share.start, share.length, c.block_size()->0)
                    },
            ),
            large: Self::share(heap_start, heap_size, HeapAllocator::Large),
        }
    }

    /// What an allocation with `layout` returns. The class that serves the
    /// layout offers the head of its free list. The request gets that block
    /// where it is aligned as asked, and fails for want of memory where it is
    /// not or where the list is empty. `Large` stands for the requests that
    /// the large-block allocator serves.
    pub open spec fn allocation(self, layout: Layout) -> Result<Allocation, OutOfMemory> {
        let which = HeapAllocator::of(layout);
        if which == HeapAllocator::Large {
            Ok(Allocation::Large)
        } else {
            match self.classes[which].next_block() {
                Ok(ptr) => if (ptr as int) % (layout.align() as int) == 0 {
                    Ok(Allocation::Block(ptr))
                } else {
                    Err(OutOfMemory)
                },
                Err(_) => Err(OutOfMemory),
            }
        }
    }

    /// The state after an allocation with `layout`: the class that gave a
    /// block has lost the head of its free list; nothing else has changed,
    /// and nothing at all where no block was given.
    pub open spec fn allocate(self, layout: Layout) -> HeapView {
        let which = HeapAllocator::of(layout);
        match self.allocation(layout) {
            Ok(Allocation::Block(_)) => HeapView {
                classes: self.classes.insert(which, self.classes[which].allocate()),
                ..self
            },
            _ => self,
        }
    }

    /// `ptr` is a block that is handed out, of the class that serves `layout`.
    pub open spec fn is_allocated(self, ptr: usize, layout: Layout) -> bool {
        let which = HeapAllocator::of(layout);
        which != HeapAllocator::Large && self.classes[which].is_allocated(ptr)
    }

    /// The state after `ptr` was given back with `layout`.
    pub open spec fn deallocate(self, ptr: usize, layout: Layout) -> HeapView {
        let which = HeapAllocator::of(layout);
        if which == HeapAllocator::Large {
            self
        } else {
            HeapView {
                classes: self.classes.insert(which, self.classes[which].deallocate(ptr)),
                ..self
            }
        }
    }

    /// No range of a class other than `except` overlaps `extent`.
    pub open spec fn classes_disjoint_from(self, extent: Extent, except: HeapAllocator) -> bool {
        forall|c: HeapAllocator, i: int|
            c != HeapAllocator::Large && c != except && 0 <= i < self.classes[c].extents.len()
                ==> (#[trigger] self.classes[c].extents[i]).disjoint(extent)
    }

    /// Whether `which` can be handed `[start, start + length)`. A class takes
    /// a range that is cut into whole aligned blocks and overlaps nothing the
    /// heap owns. The large-block allocator takes the range that starts where
    /// its own ends, as long as the longer range overlaps no class.
    pub open spec fn can_grow(self, start: usize, length: usize, which: HeapAllocator) -> bool {
        let extent = Extent { start, length };
        if which == HeapAllocator::Large {
            &&& start == self.large.end()
            &&& start + length <= usize::MAX
            &&& self.classes_disjoint_from(extent, HeapAllocator::Large)
        } else {
            &&& self.classes[which].can_grow(start, length)
            &&& self.large.disjoint(extent)
            &&& self.classes_disjoint_from(extent, which)
        }
    }

    /// The state after `which` was handed `[start, start + length)`.
    pub open spec fn grow(self, start: usize, length: usize, which: HeapAllocator) -> HeapView {
        if which == HeapAllocator::Large {
            HeapView {
                large: Extent {
                    start: self.large.start,
                    length: (self.large.length + length) as usize,
                },
                ..self
            }
        } else {
            HeapView {
                classes: self.classes.insert(which, self.classes[which].grow(start, length)),
                ..self
            }
        }
    }

    /// The least and the greatest number of bytes that an allocation with
    /// `layout` can use: a block of a class is usable in full, a large block
    /// only as far as was asked.
    pub open spec fn usable_size(layout: Layout) -> (usize, usize) {
        match HeapAllocator::of(layout).block_size() {
            Some(block_size) => (layout.size(), block_size),
            None => (layout.size(), layout.size()),
        }
    }

    /// A state whose classes are well formed and own the ranges they owned
    /// in a well-formed heap is a well-formed heap.
    proof fn lemma_same_ranges(self, post: HeapView)
        requires
            self.wf(),
            post.large == self.large,
            post.classes.dom() =~= self.classes.dom(),
            forall|c: HeapAllocator|
                c != HeapAllocator::Large ==> (#[trigger] post.classes[c]).wf()
                    && post.classes[c].block_size == self.classes[c].block_size
                    && post.classes[c].extents == self.classes[c].extents,
        ensures
            post.wf(),
    {
        assert forall|c: HeapAllocator, i: int|
            c != HeapAllocator::Large && 0 <= i < post.classes[c].extents.len() implies (
        #[trigger] post.classes[c].extents[i]).disjoint(post.large) by {
            assert(post.classes[c].extents == self.classes[c].extents);
            assert(self.classes[c].extents[i].disjoint(self.large));
        }
        assert forall|c: HeapAllocator, d: HeapAllocator, i: int, j: int|
            c != HeapAllocator::Large && d != HeapAllocator::Large && c != d && 0 <= i
                < post.classes[c].extents.len() && 0 <= j
                < post.classes[d].extents.len() implies (
        #[trigger] post.classes[c].extents[i]).disjoint(
            #[trigger] post.classes[d].extents[j],
        ) by {
            assert(post.classes[c].extents == self.classes[c].extents);
            assert(post.classes[d].extents == self.classes[d].extents);
            assert(self.classes[c].extents[i].disjoint(self.classes[d].extents[j]));
        }
    }

    /// An allocation keeps the heap well formed. A block it returns was free
    /// in the class that serves the layout and lies in a range of that class;
    /// it is at least as long as the request, aligned to the block size and
    /// aligned as the request asks. A request for an alignment of at most
    /// 4096 fails only where the free list of its class is empty.
    pub proof fn lemma_allocate(self, layout: Layout)
        requires
            self.wf(),
            layout.wf(),
        ensures
            self.allocate(layout).wf(),
            self.allocation(layout) matches Ok(Allocation::Block(ptr)) ==> {
                let which = HeapAllocator::of(layout);
                &&& which != HeapAllocator::Large
                &&& self.classes[which].next_block() == Ok::<usize, OutOfMemory>(ptr)
                &&& self.classes[which].owns(ptr)
                &&& !self.is_allocated(ptr, layout)
                &&& self.allocate(layout).is_allocated(ptr, layout)
                &&& layout.size() <= which.block_size()->0
                &&& (ptr as int) % (which.block_size()->0 as int) == 0
                &&& (ptr as int) % (layout.align() as int) == 0
            },
            HeapAllocator::of(layout) != HeapAllocator::Large && layout.align() <= 4096 ==> (
            self.allocation(layout) is Err <==> self.classes[HeapAllocator::of(
                layout,
            )].free.len() == 0),
    {
        let which = HeapAllocator::of(layout);
        if which != HeapAllocator::Large {
            let class = self.classes[which];
            let post = self.allocate(layout);
            assert(class.wf());
            class.lemma_allocate_wf();
            if let Ok(ptr) = class.next_block() {
                if layout.align() <= 4096 {
                    let bs = which.block_size()->0 as int;
                    HeapAllocator::lemma_serving_fits(layout.size(), layout.align());
                    lemma_block_sizes(which);
                    crate::layout::lemma_pow2_divides(layout.align() as int, bs);
                    crate::layout::lemma_multiple_of_divisor(
                        ptr as int,
                        layout.align() as int,
                        bs,
                    );
                }
            }
            if self.allocation(layout) is Ok {
                assert forall|c: HeapAllocator| c != HeapAllocator::Large implies (
                #[trigger] post.classes[c]).wf() && post.classes[c].block_size
                    == self.classes[c].block_size && post.classes[c].extents
                    == self.classes[c].extents by {
                    assert(self.classes[c].wf());
                }
                self.lemma_same_ranges(post);
            }
        }
    }

    /// A block that is handed out starts on a multiple of the block size of
    /// its class and lies whole within the address space.
    pub proof fn lemma_allocated_block(self, ptr: usize, layout: Layout)
        requires
            self.wf(),
            self.is_allocated(ptr, layout),
        ensures
            HeapAllocator::of(layout) != HeapAllocator::Large,
            (ptr as int) % (HeapAllocator::of(layout).block_size()->0 as int) == 0,
            ptr + HeapAllocator::of(layout).block_size()->0 <= usize::MAX,
    {
        let class = self.classes[HeapAllocator::of(layout)];
        assert(class.wf());
        let i = class.lemma_block_in_range(ptr);
        assert(class.extents[i].aligned_to(class.block_size as int));
    }

    /// Giving back an allocated block keeps the heap well formed.
    pub proof fn lemma_deallocate(self, ptr: usize, layout: Layout)
        requires
            self.wf(),
            HeapAllocator::of(layout) != HeapAllocator::Large ==> self.is_allocated(ptr, layout),
        ensures
            self.deallocate(ptr, layout).wf(),
            !self.deallocate(ptr, layout).is_allocated(ptr, layout),
    {
        let which = HeapAllocator::of(layout);
        if which != HeapAllocator::Large {
            let class = self.classes[which];
            let post = self.deallocate(ptr, layout);
            class.lemma_deallocate_wf(ptr);
            assert forall|c: HeapAllocator| c != HeapAllocator::Large implies (
            #[trigger] post.classes[c]).wf() && post.classes[c].block_size
                == self.classes[c].block_size && post.classes[c].extents
                == self.classes[c].extents by {
                assert(self.classes[c].wf());
            }
            self.lemma_same_ranges(post);
        }
    }

    /// Handing a range to a sub-allocator that can take it keeps the heap
    /// well formed.
    pub proof fn lemma_grow(self, start: usize, length: usize, which: HeapAllocator)
        requires
            self.wf(),
            self.can_grow(start, length, which),
        ensures
            self.grow(start, length, which).wf(),
    {
        let extent = Extent { start, length };
        let post = self.grow(start, length, which);
        if which == HeapAllocator::Large {
            assert forall|c: HeapAllocator, i: int|
                c != HeapAllocator::Large && 0 <= i < post.classes[c].extents.len() implies (
            #[trigger] post.classes[c].extents[i]).disjoint(post.large) by {
                let e = self.classes[c].extents[i];
                assert(self.classes[c].wf());
                assert(e.aligned_to(self.classes[c].block_size as int));
                assert(e.disjoint(self.large));
                assert(e.disjoint(extent));
            }
        } else {
            let class = self.classes[which];
            let n = class.extents.len() as int;
            assert(class.wf());
            class.lemma_grow_wf(start, length);
            assert forall|c: HeapAllocator| c != HeapAllocator::Large implies (
            #[trigger] post.classes[c]).wf() && post.classes[c].block_size
                == c.block_size()->0 by {
                assert(self.classes[c].wf());
            }
            assert forall|c: HeapAllocator, i: int|
                c != HeapAllocator::Large && 0 <= i < post.classes[c].extents.len() implies (
            #[trigger] post.classes[c].extents[i]).disjoint(post.large) by {
                if c == which && i == n {
                } else {
                    assert(post.classes[c].extents[i] == self.classes[c].extents[i]);
                }
            }
            assert forall|c: HeapAllocator, d: HeapAllocator, i: int, j: int|
                c != HeapAllocator::Large && d != HeapAllocator::Large && c != d && 0 <= i
                    < post.classes[c].extents.len() && 0 <= j
                    < post.classes[d].extents.len() implies (
            #[trigger] post.classes[c].extents[i]).disjoint(
                #[trigger] post.classes[d].extents[j],
            ) by {
                if c == which && i == n {
                    assert(post.classes[d].extents[j] == self.classes[d].extents[j]);
                    assert(self.classes[d].extents[j].disjoint(extent));
                } else if d == which && j == n {
                    assert(post.classes[c].extents[i] == self.classes[c].extents[i]);
                    assert(self.classes[c].extents[i].disjoint(extent));
                } else {
                    assert(post.classes[c].extents[i] == self.classes[c].extents[i]);
                    assert(post.classes[d].extents[j] == self.classes[d].extents[j]);
                }
            }
        }
    }

    /// The shares of a fresh heap lie side by side in the heap's range, in
    /// order, each cut into whole aligned blocks of its class.
    pub proof fn lemma_shares(heap_start: usize, heap_size: usize, which: HeapAllocator)
        requires
            Self::valid_range(heap_start, heap_size),
        ensures
            ({
                let share = Self::share(heap_start, heap_size, which);
                let part = heap_size / crate::NUM_OF_SLABS;
                &&& share.start == heap_start + which.index() * part
                &&& share.length == part
                &&& part % 4096 == 0
                &&& part >= 4096
                &&& share.start % 4096 == 0
                &&& share.end() == heap_start + (which.index() + 1) * part
                &&& share.end() <= heap_start + heap_size
                &&& which != HeapAllocator::Large ==> share.aligned_to(
                    which.block_size()->0 as int,
                )
            }),
    {
        lemma_share_arithmetic(heap_start as int, heap_size as int, which.index());
        if which != HeapAllocator::Large {
            lemma_block_sizes(which);
            let bs = which.block_size()->0 as int;
            let share = Self::share(heap_start, heap_size, which);
            crate::layout::lemma_multiple_of_divisor(share.start as int, bs, 4096);
            crate::layout::lemma_multiple_of_divisor(share.length as int, bs, 4096);
        }
    }

    /// The shares of a fresh heap divide the heap's range between them: every
    /// address of the range lies in the share of one sub-allocator and of no
    /// other.
    pub proof fn lemma_shares_cover(heap_start: usize, heap_size: usize, addr: int) -> (which:
        HeapAllocator)
        requires
            Self::valid_range(heap_start, heap_size),
            heap_start <= addr < heap_start + heap_size,
        ensures
            Self::share(heap_start, heap_size, which).contains(addr),
            forall|other: HeapAllocator| #[trigger]
                Self::share(heap_start, heap_size, other).contains(addr) ==> other == which,
    {
        Self::lemma_shares(heap_start, heap_size, HeapAllocator::Slab64);
        Self::lemma_shares(heap_start, heap_size, HeapAllocator::Slab128);
        Self::lemma_shares(heap_start, heap_size, HeapAllocator::Slab256);
        Self::lemma_shares(heap_start, heap_size, HeapAllocator::Slab512);
        Self::lemma_shares(heap_start, heap_size, HeapAllocator::Slab1024);
        Self::lemma_shares(heap_start, heap_size, HeapAllocator::Slab2048);
        Self::lemma_shares(heap_start, heap_size, HeapAllocator::Slab4096);
        Self::lemma_shares(heap_start, heap_size, HeapAllocator::Large);
        if addr < Self::share(heap_start, heap_size, HeapAllocator::Slab64).end() {
            HeapAllocator::Slab64
        } else if addr < Self::share(heap_start, heap_size, HeapAllocator::Slab128).end() {
            HeapAllocator::Slab128
        } else if addr < Self::share(heap_start, heap_size, HeapAllocator::Slab256).end() {
            HeapAllocator::Slab256
        } else if addr < Self::share(heap_start, heap_size, HeapAllocator::Slab512).end() {
            HeapAllocator::Slab512
        } else if addr < Self::share(heap_start, heap_size, HeapAllocator::Slab1024).end() {
            HeapAllocator::Slab1024
        } else if addr < Self::share(heap_start, heap_size, HeapAllocator::Slab2048).end() {
            HeapAllocator::Slab2048
        } else if addr < Self::share(heap_start, heap_size, HeapAllocator::Slab4096).end() {
            HeapAllocator::Slab4096
        } else {
            HeapAllocator::Large
        }
    }

    /// A fresh heap is well formed.
    pub proof fn lemma_fresh_wf(heap_start: usize, heap_size: usize)
        requires
            Self::valid_range(heap_start, heap_size),
        ensures
            Self::fresh(heap_start, heap_size).wf(),
    {
        let h = Self::fresh(heap_start, heap_size);
        let part = (heap_size / crate::NUM_OF_SLABS) as int;
        Self::lemma_shares(heap_start, heap_size, HeapAllocator::Large);
        assert forall|c: HeapAllocator| c != HeapAllocator::Large implies (
        #[trigger] h.classes[c]).wf() && h.classes[c].block_size == c.block_size()->0 by {
            Self::lemma_shares(heap_start, heap_size, c);
            lemma_block_sizes(c);
            let share = Self::share(heap_start, heap_size, c);
            SlabView::lemma_fresh_wf(share.start, share.length, c.block_size()->0);
        }
        assert forall|c: HeapAllocator, i: int|
            c != HeapAllocator::Large && 0 <= i < h.classes[c].extents.len() implies (
        #[trigger] h.classes[c].extents[i]).disjoint(h.large) by {
            Self::lemma_shares(heap_start, heap_size, c);
            assert((c.index() + 1) * part <= 7 * part) by (nonlinear_arith)
                requires
                    c.index() + 1 <= 7,
                    part >= 0,
            ;
        }
        assert forall|c: HeapAllocator, d: HeapAllocator, i: int, j: int|
            c != HeapAllocator::Large && d != HeapAllocator::Large && c != d && 0 <= i
                < h.classes[c].extents.len() && 0 <= j < h.classes[d].extents.len() implies (
        #[trigger] h.classes[c].extents[i]).disjoint(#[trigger] h.classes[d].extents[j]) by {
            Self::lemma_shares(heap_start, heap_size, c);
            Self::lemma_shares(heap_start, heap_size, d);
            if c.index() < d.index() {
                assert((c.index() + 1) * part <= d.index() * part) by (nonlinear_arith)
                    requires
                        c.index() + 1 <= d.index(),
                        part >= 0,
                ;
            } else {
                assert((d.index() + 1) * part <= c.index() * part) by (nonlinear_arith)
                    requires
                        d.index() + 1 <= c.index(),
                        part >= 0,
                ;
            }
        }
    }
}

/// A heap over one range of addresses: seven classes of blocks of 64 to 4096
/// bytes, and the books on the range of the large-block allocator.
///
/// The heap serves the classes itself. For a request that belongs to the
/// large-block allocator it takes nothing and says so: whoever drives that
/// allocator serves the request from the range that [`Heap::large_region`]
/// names.
pub struct Heap {
    slab_64_bytes: Slab,
    slab_128_bytes: Slab,
    slab_256_bytes: Slab,
    slab_512_bytes: Slab,
    slab_1024_bytes: Slab,
    slab_2048_bytes: Slab,
    slab_4096_bytes: Slab,
    large: Extent,
}

impl View for Heap {
    type V = HeapView;

    closed spec fn view(&self) -> HeapView {
        HeapView {
            classes: Map::new(
                |c: HeapAllocator| c != HeapAllocator::Large,
                |c: HeapAllocator| self.class(c)@,
            ),
            large: self.large,
        }
    }
}

impl Heap {
    spec fn class(&self, which: HeapAllocator) -> Slab {
        match which {
            HeapAllocator::Slab64 => self.slab_64_bytes,
            HeapAllocator::Slab128 => self.slab_128_bytes,
            HeapAllocator::Slab256 => self.slab_256_bytes,
            HeapAllocator::Slab512 => self.slab_512_bytes,
            HeapAllocator::Slab1024 => self.slab_1024_bytes,
            HeapAllocator::Slab2048 => self.slab_2048_bytes,
            _ => self.slab_4096_bytes,
        }
    }

    fn class_mut(&mut self, which: HeapAllocator) -> (slab: &mut Slab)
        requires
            which != HeapAllocator::Large,
        ensures
            *slab == old(self).class(which),
            final(self).class(which) == *final(slab),
            forall|c: HeapAllocator|
                c != which && c != HeapAllocator::Large ==> final(self).class(c) == old(
                    self,
                ).class(c),
            final(self).large == old(self).large,
    {
        match which {
            HeapAllocator::Slab64 => &mut self.slab_64_bytes,
            HeapAllocator::Slab128 => &mut self.slab_128_bytes,
            HeapAllocator::Slab256 => &mut self.slab_256_bytes,
            HeapAllocator::Slab512 => &mut self.slab_512_bytes,
            HeapAllocator::Slab1024 => &mut self.slab_1024_bytes,
            HeapAllocator::Slab2048 => &mut self.slab_2048_bytes,
            _ => &mut self.slab_4096_bytes,
        }
    }

    /// A heap over `[heap_start_addr, heap_start_addr + heap_size)`. The
    /// range is cut into eight equal parts: one for each class, from the
    /// smallest blocks up, and the last for the large-block allocator.
    pub fn new(heap_start_addr: usize, heap_size: usize) -> (heap: Heap)
        requires
            HeapView::valid_range(heap_start_addr, heap_size),
        ensures
            heap@ == HeapView::fresh(heap_start_addr, heap_size),
            heap@.wf(),
    {
        let slab_size: usize = heap_size / crate::NUM_OF_SLABS;
        proof {
            HeapView::lemma_fresh_wf(heap_start_addr, heap_size);
            HeapView::lemma_shares(heap_start_addr, heap_size, HeapAllocator::Slab64);
            HeapView::lemma_shares(heap_start_addr, heap_size, HeapAllocator::Slab128);
            HeapView::lemma_shares(heap_start_addr, heap_size, HeapAllocator::Slab256);
            HeapView::lemma_shares(heap_start_addr, heap_size, HeapAllocator::Slab512);
            HeapView::lemma_shares(heap_start_addr, heap_size, HeapAllocator::Slab1024);
            HeapView::lemma_shares(heap_start_addr, heap_size, HeapAllocator::Slab2048);
            HeapView::lemma_shares(heap_start_addr, heap_size, HeapAllocator::Slab4096);
            HeapView::lemma_shares(heap_start_addr, heap_size, HeapAllocator::Large);
            lemma_block_sizes(HeapAllocator::Slab64);
            lemma_block_sizes(HeapAllocator::Slab128);
            lemma_block_sizes(HeapAllocator::Slab256);
            lemma_block_sizes(HeapAllocator::Slab512);
            lemma_block_sizes(HeapAllocator::Slab1024);
            lemma_block_sizes(HeapAllocator::Slab2048);
            lemma_block_sizes(HeapAllocator::Slab4096);
        }
        let heap = Heap {
            slab_64_bytes: Slab::new(heap_start_addr, slab_size, 64),
            slab_128_bytes: Slab::new(heap_start_addr + slab_size, slab_size, 128),
            slab_256_bytes: Slab::new(heap_start_addr + 2 * slab_size, slab_size, 256),
            slab_512_bytes: Slab::new(heap_start_addr + 3 * slab_size, slab_size, 512),
            slab_1024_bytes: Slab::new(heap_start_addr + 4 * slab_size, slab_size, 1024),
            slab_2048_bytes: Slab::new(heap_start_addr + 5 * slab_size, slab_size, 2048),
            slab_4096_bytes: Slab::new(heap_start_addr + 6 * slab_size, slab_size, 4096),
            large: Extent { start: heap_start_addr + 7 * slab_size, length: slab_size },
        };
        proof {
            assert(heap@.classes =~= HeapView::fresh(heap_start_addr, heap_size).classes);
        }
        heap
    }

    /// Whether a heap can be made over
    /// `[heap_start_addr, heap_start_addr + heap_size)`: the range starts on
    /// a page, holds a page for each sub-allocator, is shared out in whole
    /// pages, and does not wrap around the address space.
    pub fn is_valid_range(heap_start_addr: usize, heap_size: usize) -> (r: bool)
        ensures
            r == HeapView::valid_range(heap_start_addr, heap_size),
    {
        heap_start_addr % 4096 == 0 && heap_size >= crate::MIN_HEAP_SIZE && heap_size
            % crate::MIN_HEAP_SIZE == 0 && heap_size <= usize::MAX - heap_start_addr
    }

    /// The share of the sub-allocator `which` in a heap made over
    /// `[heap_start_addr, heap_start_addr + heap_size)`: one of the eight
    /// equal parts of the range, in the order of the classes, the last for
    /// the large-block allocator.
    pub fn share(heap_start_addr: usize, heap_size: usize, which: HeapAllocator) -> (r: Extent)
        requires
            HeapView::valid_range(heap_start_addr, heap_size),
        ensures
            r == HeapView::share(heap_start_addr, heap_size, which),
    {
        let part: usize = heap_size / crate::NUM_OF_SLABS;
        let index: usize = match which {
            HeapAllocator::Slab64 => 0,
            HeapAllocator::Slab128 => 1,
            HeapAllocator::Slab256 => 2,
            HeapAllocator::Slab512 => 3,
            HeapAllocator::Slab1024 => 4,
            HeapAllocator::Slab2048 => 5,
            HeapAllocator::Slab4096 => 6,
            HeapAllocator::Large => 7,
        };
        proof {
            HeapView::lemma_shares(heap_start_addr, heap_size, which);
            assert(index * part == which.index() * (part as int));
        }
        Extent { start: heap_start_addr + index * part, length: part }
    }

    /// The sub-allocator that serves `layout`.
    pub fn layout_to_allocator(layout: &Layout) -> (which: HeapAllocator)
        ensures
            which == HeapAllocator::of(*layout),
    {
        if layout.size() > 4096 {
            HeapAllocator::Large
        } else if layout.size() <= 64 && layout.align() <= 64 {
            HeapAllocator::Slab64
        } else if layout.size() <= 128 && layout.align() <= 128 {
            HeapAllocator::Slab128
        } else if layout.size() <= 256 && layout.align() <= 256 {
            HeapAllocator::Slab256
        } else if layout.size() <= 512 && layout.align() <= 512 {
            HeapAllocator::Slab512
        } else if layout.size() <= 1024 && layout.align() <= 1024 {
            HeapAllocator::Slab1024
        } else if layout.size() <= 2048 && layout.align() <= 2048 {
            HeapAllocator::Slab2048
        } else {
            HeapAllocator::Slab4096
        }
    }

    /// Serves a request. The class that serves the layout offers the block
    /// at the head of its free list. The request gets it where the block is
    /// aligned as asked; it fails, and nothing changes, where the block is
    /// not or where the list is empty. For a request that belongs to the
    /// large-block allocator nothing is taken.
    ///
    /// A block is as long as the blocks of its class and aligned to that
    /// length, so a request for an alignment of at most 4096 fails only
    /// where its class has no free block.
    pub fn allocate(&mut self, layout: Layout) -> (r: Result<Allocation, OutOfMemory>)
        requires
            old(self)@.wf(),
        ensures
            final(self)@.wf(),
            final(self)@ == old(self)@.allocate(layout),
            r == old(self)@.allocation(layout),
            r matches Ok(Allocation::Block(ptr)) ==> {
                let which = HeapAllocator::of(layout);
                &&& which != HeapAllocator::Large
                &&& old(self)@.classes[which].owns(ptr)
                &&& !old(self)@.is_allocated(ptr, layout)
                &&& final(self)@.is_allocated(ptr, layout)
                &&& layout.size() <= which.block_size()->0
                &&& (ptr as int) % (which.block_size()->0 as int) == 0
                &&& (ptr as int) % (layout.align() as int) == 0
            },
            HeapAllocator::of(layout) != HeapAllocator::Large && layout.align() <= 4096 ==> (r is Err
                <==> old(self)@.classes[HeapAllocator::of(layout)].free.len() == 0),
    {
        proof {
            use_type_invariant(&layout);
            old(self)@.lemma_allocate(layout);
        }
        let which = Heap::layout_to_allocator(&layout);
        if which == HeapAllocator::Large {
            return Ok(Allocation::Large);
        }
        let head = match self.class_ref(which) {
            Some(slab) => slab.head(),
            None => None,
        };
        match head {
            Some(ptr) => {
                if ptr % layout.align() == 0 {
                    let slab = self.class_mut(which);
                    let _ = slab.allocate();
                    proof {
                        assert(self@.classes =~= old(self)@.allocate(layout).classes);
                    }
                    Ok(Allocation::Block(ptr))
                } else {
                    Err(OutOfMemory)
                }
            },
            None => Err(OutOfMemory),
        }
    }

    /// Gives the block at `ptr` back to the class that serves `layout`, which
    /// is the layout the block was asked for with. A block of the
    /// large-block allocator is not taken back here: nothing changes.
    pub fn deallocate(&mut self, ptr: usize, layout: Layout)
        requires
            old(self)@.wf(),
            HeapAllocator::of(layout) != HeapAllocator::Large ==> old(self)@.is_allocated(
                ptr,
                layout,
            ),
        ensures
            final(self)@.wf(),
            final(self)@ == old(self)@.deallocate(ptr, layout),
    {
        proof {
            old(self)@.lemma_deallocate(ptr, layout);
        }
        let which = Heap::layout_to_allocator(&layout);
        if which == HeapAllocator::Large {
            return ;
        }
        let slab = self.class_mut(which);
        slab.deallocate(ptr);
        proof {
            assert(self@.classes =~= old(self)@.deallocate(ptr, layout).classes);
        }
    }

    /// Hands `[mem_start_addr, mem_start_addr + mem_size)` to the
    /// sub-allocator `slab`. A class puts the new blocks before the rest of
    /// its free list. The large-block allocator can only be extended where
    /// its range ends, so for it the heap notes the longer range.
    pub fn grow(&mut self, mem_start_addr: usize, mem_size: usize, slab: HeapAllocator)
        requires
            old(self)@.wf(),
            old(self)@.can_grow(mem_start_addr, mem_size, slab),
        ensures
            final(self)@.wf(),
            final(self)@ == old(self)@.grow(mem_start_addr, mem_size, slab),
    {
        proof {
            old(self)@.lemma_grow(mem_start_addr, mem_size, slab);
        }
        if slab == HeapAllocator::Large {
            self.large = Extent { start: self.large.start, length: self.large.length + mem_size };
            proof {
                assert(self@.classes =~= old(self)@.classes);
            }
        } else {
            let class = self.class_mut(slab);
            class.grow(mem_start_addr, mem_size);
            proof {
                assert(self@.classes =~= old(self)@.grow(mem_start_addr, mem_size, slab).classes);
            }
        }
    }

    /// Whether `ptr` is a block that is handed out, of the class that serves
    /// `layout`. Blocks of the large-block allocator are not known here.
    pub fn is_allocated(&self, ptr: usize, layout: &Layout) -> (r: bool)
        requires
            self@.wf(),
        ensures
            r == self@.is_allocated(ptr, *layout),
    {
        match self.class_ref(Heap::layout_to_allocator(layout)) {
            Some(slab) => slab.is_allocated(ptr),
            None => false,
        }
    }

    /// Whether the sub-allocator `which` can be handed
    /// `[start, start + length)`.
    pub fn can_grow(&self, start: usize, length: usize, which: HeapAllocator) -> (r: bool)
        requires
            self@.wf(),
        ensures
            r == self@.can_grow(start, length, which),
    {
        let extent = Extent { start, length };
        match self.class_ref(which) {
            Some(slab) => slab.can_grow(start, length) && self.large.is_disjoint(&extent)
                && self.classes_disjoint_from(&extent, which),
            None => start >= self.large.start && start - self.large.start == self.large.length
                && length <= usize::MAX - start && self.classes_disjoint_from(&extent, which),
        }
    }

    /// The class `which`, or nothing for the large-block allocator.
    pub fn class_ref(&self, which: HeapAllocator) -> (r: Option<&Slab>)
        ensures
            which == HeapAllocator::Large ==> r is None,
            which != HeapAllocator::Large ==> r is Some && r->0@ == self@.classes[which],
    {
        match which {
            HeapAllocator::Slab64 => Some(&self.slab_64_bytes),
            HeapAllocator::Slab128 => Some(&self.slab_128_bytes),
            HeapAllocator::Slab256 => Some(&self.slab_256_bytes),
            HeapAllocator::Slab512 => Some(&self.slab_512_bytes),
            HeapAllocator::Slab1024 => Some(&self.slab_1024_bytes),
            HeapAllocator::Slab2048 => Some(&self.slab_2048_bytes),
            HeapAllocator::Slab4096 => Some(&self.slab_4096_bytes),
            HeapAllocator::Large => None,
        }
    }

    fn classes_disjoint_from(&self, extent: &Extent, except: HeapAllocator) -> (r: bool)
        ensures
            r == self@.classes_disjoint_from(*extent, except),
    {
        let r = (except == HeapAllocator::Slab64 || self.slab_64_bytes.is_disjoint_from(extent))
            && (except == HeapAllocator::Slab128 || self.slab_128_bytes.is_disjoint_from(extent))
            && (except == HeapAllocator::Slab256 || self.slab_256_bytes.is_disjoint_from(extent))
            && (except == HeapAllocator::Slab512 || self.slab_512_bytes.is_disjoint_from(extent))
            && (except == HeapAllocator::Slab1024 || self.slab_1024_bytes.is_disjoint_from(
            extent,
        )) && (except == HeapAllocator::Slab2048 || self.slab_2048_bytes.is_disjoint_from(extent))
            && (except == HeapAllocator::Slab4096 || self.slab_4096_bytes.is_disjoint_from(
            extent,
        ));
        proof {
            let v = self@;
            if r {
                assert forall|c: HeapAllocator, i: int|
                    c != HeapAllocator::Large && c != except && 0 <= i
                        < v.classes[c].extents.len() implies (
                #[trigger] v.classes[c].extents[i]).disjoint(*extent) by {
                    assert(v.classes[c] == self.class(c)@);
                    assert(self.class(c)@.disjoint_from(*extent));
                }
            } else {
                let c = if except != HeapAllocator::Slab64
                    && !self.slab_64_bytes@.disjoint_from(*extent) {
                    HeapAllocator::Slab64
                } else if except != HeapAllocator::Slab128 && !self.slab_128_bytes@.disjoint_from(
                    *extent,
                ) {
                    HeapAllocator::Slab128
                } else if except != HeapAllocator::Slab256 && !self.slab_256_bytes@.disjoint_from(
                    *extent,
                ) {
                    HeapAllocator::Slab256
                } else if except != HeapAllocator::Slab512 && !self.slab_512_bytes@.disjoint_from(
                    *extent,
                ) {
                    HeapAllocator::Slab512
                } else if except != HeapAllocator::Slab1024
                    && !self.slab_1024_bytes@.disjoint_from(*extent) {
                    HeapAllocator::Slab1024
                } else if except != HeapAllocator::Slab2048
                    && !self.slab_2048_bytes@.disjoint_from(*extent) {
                    HeapAllocator::Slab2048
                } else {
                    HeapAllocator::Slab4096
                };
                assert(v.classes[c] == self.class(c)@);
                assert(!v.classes[c].disjoint_from(*extent));
                let i = choose|i: int|
                    0 <= i < v.classes[c].extents.len() && !(
                    #[trigger] v.classes[c].extents[i]).disjoint(*extent);
                assert(!v.classes[c].extents[i].disjoint(*extent));
            }
        }
        r
    }

    /// The least and the greatest number of bytes that an allocation with
    /// `layout` can use.
    pub fn usable_size(&self, layout: &Layout) -> (r: (usize, usize))
        ensures
            r == HeapView::usable_size(*layout),
    {
        match Heap::layout_to_allocator(layout).block_size() {
            Some(block_size) => (layout.size(), block_size),
            None => (layout.size(), layout.size()),
        }
    }

    /// The range that belongs to the large-block allocator.
    pub fn large_region(&self) -> (r: Extent)
        ensures
            r == self@.large,
    {
        self.large
    }
}

} // verus!
