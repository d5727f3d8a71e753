//! The blocks of a class, counted: the free blocks and the blocks handed out
//! divide the ranges of the class between them.
use vstd::prelude::*;
use vstd::set_lib::{lemma_len_subset, lemma_set_disjoint_lens};
use crate::extent::Extent;
use crate::slab::SlabView;

verus! {

/// Number of blocks of `block_size` bytes in all the ranges together.
pub open spec fn block_total(extents: Seq<Extent>, block_size: int) -> int
    decreases extents.len(),
{
    if extents.len() == 0 {
        0
    } else {
        block_total(extents.drop_last(), block_size) + extents.last().block_count(block_size)
    }
}

impl Extent {
    /// The addresses of the first `count` blocks of the range.
    pub open spec fn first_blocks(self, block_size: int, count: int) -> Set<usize> {
        Set::new(
            |addr: usize|
                self.has_block(block_size, addr) && addr < self.start + count * block_size,
        )
    }

    /// The addresses of the blocks of the range.
    pub open spec fn block_set(self, block_size: int) -> Set<usize> {
        Set::new(|addr: usize| self.has_block(block_size, addr))
    }

    proof fn lemma_first_blocks(self, block_size: int, count: int)
        requires
            self.aligned_to(block_size),
            0 <= count <= self.block_count(block_size),
        ensures
            self.first_blocks(block_size, count).finite(),
            self.first_blocks(block_size, count).len() == count,
        decreases count,
    {
        if count == 0 {
            assert(self.first_blocks(block_size, 0) =~= Set::empty());
        } else {
            let before = self.first_blocks(block_size, count - 1);
            let last = self.block(block_size, count - 1);
            self.lemma_first_blocks(block_size, count - 1);
            self.lemma_block(block_size, count - 1);
            assert(count * block_size == (count - 1) * block_size + block_size)
                by (nonlinear_arith);
            assert forall|addr: usize|
                self.first_blocks(block_size, count).contains(addr) <==> before.insert(
                    last,
                ).contains(addr) by {
                if self.has_block(block_size, addr) {
                    let i = self.lemma_block_index(block_size, addr);
                    assert(i < count - 1 ==> i * block_size + block_size <= (count - 1)
                        * block_size) by (nonlinear_arith)
                        requires
                            block_size > 0,
                    ;
                    assert(i > count - 1 ==> i * block_size >= (count - 1) * block_size
                        + block_size) by (nonlinear_arith)
                        requires
                            block_size > 0,
                    ;
                }
            }
            assert(self.first_blocks(block_size, count) =~= before.insert(last));
        }
    }

    /// A range holds as many block addresses as its length gives blocks.
    pub proof fn lemma_block_set(self, block_size: int)
        requires
            self.aligned_to(block_size),
        ensures
            self.block_set(block_size).finite(),
            self.block_set(block_size).len() == self.block_count(block_size),
    {
        let count = self.block_count(block_size);
        self.lemma_first_blocks(block_size, count);
        assert forall|addr: usize|
            self.block_set(block_size).contains(addr) implies self.first_blocks(
            block_size,
            count,
        ).contains(addr) by {
            let i = self.lemma_block_index(block_size, addr);
            assert(i * block_size + block_size <= count * block_size) by (nonlinear_arith)
                requires
                    i < count,
                    block_size > 0,
            ;
        }
        assert(self.block_set(block_size) =~= self.first_blocks(block_size, count));
    }
}

impl SlabView {
    /// The addresses of all blocks of the class.
    pub open spec fn slots(self) -> Set<usize> {
        Set::new(|addr: usize| self.owns(addr))
    }

    /// The addresses of the free blocks.
    pub open spec fn free_set(self) -> Set<usize> {
        self.free.to_set()
    }

    /// The addresses of the blocks that are handed out.
    pub open spec fn allocated(self) -> Set<usize> {
        Set::new(|addr: usize| self.is_allocated(addr))
    }

    /// Number of blocks of the class, free or not.
    pub open spec fn capacity(self) -> int {
        block_total(self.extents, self.block_size as int)
    }

    /// The class as it would be with only the first `count` of its ranges.
    spec fn first_extents(self, count: int) -> SlabView {
        SlabView { extents: self.extents.subrange(0, count), ..self }
    }

    proof fn lemma_slots_of_first(self, count: int)
        requires
            self.wf(),
            0 <= count <= self.extents.len(),
        ensures
            self.first_extents(count).slots().finite(),
            self.first_extents(count).slots().len() == self.first_extents(count).capacity(),
        decreases count,
    {
        let bs = self.block_size as int;
        let now = self.first_extents(count);
        if count == 0 {
            assert(now.slots() =~= Set::empty());
        } else {
            let before = self.first_extents(count - 1);
            let last = self.extents[count - 1];
            self.lemma_slots_of_first(count - 1);
            last.lemma_block_set(bs);
            assert(now.extents.drop_last() =~= before.extents);
            assert(now.extents.last() == last);
            assert forall|addr: usize|
                now.slots().contains(addr) <==> (before.slots() + last.block_set(bs)).contains(
                    addr,
                ) by {
                if now.owns(addr) {
                    let i = choose|i: int|
                        0 <= i < now.extents.len() && (#[trigger] now.extents[i]).has_block(
                            bs,
                            addr,
                        );
                    if i < count - 1 {
                        assert(before.extents[i].has_block(bs, addr));
                    }
                }
                if before.owns(addr) {
                    let i = choose|i: int|
                        0 <= i < before.extents.len() && (
                        #[trigger] before.extents[i]).has_block(bs, addr);
                    assert(now.extents[i].has_block(bs, addr));
                }
                if last.has_block(bs, addr) {
                    assert(now.extents[count - 1].has_block(bs, addr));
                }
            }
            assert(now.slots() =~= before.slots() + last.block_set(bs));
            assert(before.slots().disjoint(last.block_set(bs))) by {
                assert forall|addr: usize|
                    !(before.slots().contains(addr) && last.block_set(bs).contains(addr)) by {
                    if before.owns(addr) && last.has_block(bs, addr) {
                        let i = choose|i: int|
                            0 <= i < before.extents.len() && (
                            #[trigger] before.extents[i]).has_block(bs, addr);
                        assert(self.extents[i].disjoint(self.extents[count - 1]));
                    }
                }
            }
            lemma_set_disjoint_lens(before.slots(), last.block_set(bs));
        }
    }

    /// The free blocks and the blocks handed out divide the blocks of the
    /// class between them: no block is both, every block is one of the two,
    /// and together they are as many as the ranges' lengths give blocks.
    pub proof fn lemma_partition(self)
        requires
            self.wf(),
        ensures
            self.slots().finite(),
            self.slots().len() == self.capacity(),
            self.free_set().disjoint(self.allocated()),
            self.free_set() + self.allocated() == self.slots(),
            self.free_set().len() == self.free.len(),
            self.free_set().len() + self.allocated().len() == self.capacity(),
    {
        self.lemma_slots_of_first(self.extents.len() as int);
        assert(self.first_extents(self.extents.len() as int).extents =~= self.extents);
        assert(self.first_extents(self.extents.len() as int) == self);
        assert forall|addr: usize| self.free_set().contains(addr) implies self.owns(addr) by {
            let k = choose|k: int| 0 <= k < self.free.len() && self.free[k] == addr;
            assert(self.owns(self.free[k]));
        }
        assert(self.free_set() + self.allocated() =~= self.slots());
        self.free.unique_seq_to_set();
        lemma_len_subset(self.free_set(), self.slots());
        lemma_len_subset(self.allocated(), self.slots());
        lemma_set_disjoint_lens(self.free_set(), self.allocated());
    }

    /// Walking the free list from its head visits no block twice and ends
    /// after at most as many steps as the class has blocks.
    pub proof fn lemma_free_list_ends(self)
        requires
            self.wf(),
        ensures
            self.free.no_duplicates(),
            self.free.len() <= self.capacity(),
    {
        self.lemma_partition();
    }

    /// Every block of the class lies in one of its ranges, whole and aligned
    /// to the block size.
    pub proof fn lemma_block_in_range(self, addr: usize) -> (i: int)
        requires
            self.wf(),
            self.owns(addr),
        ensures
            0 <= i < self.extents.len(),
            self.extents[i].start <= addr,
            addr + self.block_size <= self.extents[i].end(),
            (addr as int) % (self.block_size as int) == 0,
    {
        let i = choose|i: int|
            0 <= i < self.extents.len() && (#[trigger] self.extents[i]).has_block(
                self.block_size as int,
                addr,
            );
        self.extents[i].lemma_block_index(self.block_size as int, addr);
        i
    }

    /// Two blocks of the class share no byte.
    pub proof fn lemma_blocks_apart(self, a: usize, b: usize)
        requires
            self.wf(),
            self.owns(a),
            self.owns(b),
            a != b,
        ensures
            a + self.block_size <= b || b + self.block_size <= a,
    {
        let bs = self.block_size as int;
        let i = self.lemma_block_in_range(a);
        let j = self.lemma_block_in_range(b);
        if i == j {
            let e = self.extents[i];
            let m = e.lemma_block_index(bs, a);
            let n = e.lemma_block_index(bs, b);
            e.lemma_block(bs, m);
            e.lemma_block(bs, n);
            assert(m < n ==> m * bs + bs <= n * bs) by (nonlinear_arith)
                requires
                    bs > 0,
            ;
            assert(n < m ==> n * bs + bs <= m * bs) by (nonlinear_arith)
                requires
                    bs > 0,
            ;
        } else {
            assert(self.extents[i].disjoint(self.extents[j]));
        }
    }

    /// Every address in a range of the class lies in one of its blocks.
    pub proof fn lemma_range_covered(self, i: int, addr: int) -> (block: usize)
        requires
            self.wf(),
            0 <= i < self.extents.len(),
            self.extents[i].contains(addr),
        ensures
            self.owns(block),
            block <= addr < block + self.block_size,
    {
        let bs = self.block_size as int;
        let e = self.extents[i];
        assert(e.aligned_to(bs));
        let off = addr - e.start;
        let n = off / bs;
        vstd::arithmetic::div_mod::lemma_fundamental_div_mod(off, bs);
        assert(0 <= n && n * bs <= off < n * bs + bs && n < e.block_count(bs))
            by (nonlinear_arith)
            requires
                n == off / bs,
                off == bs * n + off % bs,
                0 <= off % bs < bs,
                0 <= off < e.length,
                bs > 0,
                (e.length as int) % bs == 0,
                e.block_count(bs) == (e.length as int) / bs,
        ;
        e.lemma_block(bs, n);
        let block = e.block(bs, n);
        assert(self.extents[i].has_block(bs, block));
        block
    }
}

} // verus!
