//! Address ranges and the blocks they are cut into.
use vstd::prelude::*;

verus! {

/// A half-open range of addresses, `[start, start + length)`.
#[derive(Clone, Copy, Debug, PartialEq, Eq, Structural)]
pub struct Extent {
    pub start: usize,
    pub length: usize,
}

impl Extent {
    /// The first address past the range.
    pub open spec fn end(self) -> int {
        self.start + self.length
    }

    pub open spec fn contains(self, addr: int) -> bool {
        self.start <= addr < self.end()
    }

    /// The two ranges share no address.
    pub open spec fn disjoint(self, other: Extent) -> bool {
        self.end() <= other.start || other.end() <= self.start
    }

    /// The range is not empty, does not wrap around the address space, and
    /// can be cut into whole blocks of `block_size` bytes, each aligned to
    /// `block_size`.
    pub open spec fn aligned_to(self, block_size: int) -> bool {
        &&& block_size > 0
        &&& self.length > 0
        &&& (self.start as int) % block_size == 0
        &&& (self.length as int) % block_size == 0
        &&& self.end() <= usize::MAX
    }

    /// Number of blocks of `block_size` bytes in the range.
    pub open spec fn block_count(self, block_size: int) -> int {
        (self.length as int) / block_size
    }

    /// Address of the `i`-th block.
    pub open spec fn block(self, block_size: int, i: int) -> usize {
        (self.start + i * block_size) as usize
    }

    /// `addr` is where one of the range's blocks starts.
    pub open spec fn has_block(self, block_size: int, addr: usize) -> bool {
        self.contains(addr as int) && (addr - self.start) % block_size == 0
    }

    /// The addresses of all blocks, lowest first.
    pub open spec fn blocks(self, block_size: int) -> Seq<usize> {
        Seq::new(self.block_count(block_size) as nat, |i: int| self.block(block_size, i))
    }

    /// The `i`-th block lies inside the range, and no other index names it.
    pub proof fn lemma_block(self, block_size: int, i: int)
        requires
            self.aligned_to(block_size),
            0 <= i < self.block_count(block_size),
        ensures
            self.block(block_size, i) == self.start + i * block_size,
            self.start <= self.block(block_size, i),
            self.block(block_size, i) + block_size <= self.end(),
            self.has_block(block_size, self.block(block_size, i)),
            (self.block(block_size, i) - self.start) / block_size == i,
            (self.block(block_size, i) as int) % block_size == 0,
    {
        let n = self.block_count(block_size);
        let len = self.length as int;
        let start = self.start as int;
        assert(len == n * block_size) by (nonlinear_arith)
            requires
                n == len / block_size,
                len % block_size == 0,
                block_size > 0,
        ;
        assert(0 <= i * block_size && i * block_size + block_size <= n * block_size)
            by (nonlinear_arith)
            requires
                0 <= i < n,
                block_size > 0,
        ;
        assert((i * block_size) % block_size == 0 && (i * block_size) / block_size == i)
            by (nonlinear_arith)
            requires
                block_size > 0,
        ;
        assert((start + i * block_size) % block_size == 0) by {
            vstd::arithmetic::div_mod::lemma_mod_multiples_vanish(i, start, block_size);
            assert(block_size * i + start == start + i * block_size) by (nonlinear_arith);
        }
    }

    /// Every block address is the address of the block at some index.
    pub proof fn lemma_block_index(self, block_size: int, addr: usize) -> (i: int)
        requires
            self.aligned_to(block_size),
            self.has_block(block_size, addr),
        ensures
            0 <= i < self.block_count(block_size),
            self.block(block_size, i) == addr,
            addr == self.start + i * block_size,
            i == (addr - self.start) / block_size,
            addr + block_size <= self.end(),
            (addr as int) % block_size == 0,
    {
        let off = addr - self.start;
        let len = self.length as int;
        let start = self.start as int;
        let i = off / block_size;
        assert(off == i * block_size) by (nonlinear_arith)
            requires
                i == off / block_size,
                off % block_size == 0,
                block_size > 0,
        ;
        assert(0 <= i < len / block_size && i * block_size + block_size <= len)
            by (nonlinear_arith)
            requires
                off == i * block_size,
                0 <= off < len,
                len % block_size == 0,
                block_size > 0,
        ;
        assert((start + i * block_size) % block_size == 0) by {
            vstd::arithmetic::div_mod::lemma_mod_multiples_vanish(i, start, block_size);
            assert(block_size * i + start == start + i * block_size) by (nonlinear_arith);
        }
        i
    }

    /// Whether the two ranges share no address.
    pub fn is_disjoint(&self, other: &Extent) -> (r: bool)
        ensures
            r == self.disjoint(*other),
    {
        if self.start <= other.start {
            self.length <= other.start - self.start || (other.length == 0 && other.start
                == self.start)
        } else {
            other.length <= self.start - other.start
        }
    }

    /// Whether the range is not empty, does not wrap around the address
    /// space, and can be cut into whole blocks of `block_size` bytes, each
    /// aligned to `block_size`.
    pub fn is_aligned_to(&self, block_size: usize) -> (r: bool)
        ensures
            r == self.aligned_to(block_size as int),
    {
        block_size > 0 && self.length > 0 && self.start % block_size == 0 && self.length
            % block_size == 0 && self.length <= usize::MAX - self.start
    }

    /// Whether `addr` is where one of the range's blocks starts.
    pub fn starts_block(&self, block_size: usize, addr: usize) -> (r: bool)
        requires
            block_size > 0,
        ensures
            r == self.has_block(block_size as int, addr),
    {
        addr >= self.start && addr - self.start < self.length && (addr - self.start) % block_size
            == 0
    }
}

} // verus!
