//! Request descriptors: the size and alignment of an allocation.
use vstd::prelude::*;
use vstd::arithmetic::power2::is_pow2;

verus! {

/// Whether `n` is a power of two.
pub fn is_power_of_two(n: usize) -> (r: bool)
    ensures
        r == is_pow2(n as int),
{
    if n == 0 {
        proof {
            reveal(is_pow2);
        }
        return false;
    }
    let mut m: usize = n;
    while m % 2 == 0
        invariant
            m > 0,
            is_pow2(m as int) == is_pow2(n as int),
        decreases m,
    {
        proof {
            reveal(is_pow2);
        }
        m = m / 2;
    }
    proof {
        reveal(is_pow2);
    }
    m == 1
}

/// A power of two divides every power of two that is not smaller.
pub proof fn lemma_pow2_divides(a: int, b: int)
    requires
        is_pow2(a),
        is_pow2(b),
        a <= b,
    ensures
        a > 0,
        b % a == 0,
    decreases a,
{
    reveal(is_pow2);
    if a != 1 {
        let ha = a / 2;
        let hb = b / 2;
        lemma_pow2_divides(ha, hb);
        let k = hb / ha;
        assert(hb == k * ha) by (nonlinear_arith)
            requires
                k == hb / ha,
                hb % ha == 0,
                ha > 0,
        ;
        assert(b == k * a) by (nonlinear_arith)
            requires
                hb == k * ha,
                a == 2 * ha,
                b == 2 * hb,
        ;
        vstd::arithmetic::div_mod::lemma_mod_multiples_basic(k, a);
    }
}

/// A multiple of `b` is a multiple of every divisor of `b`.
pub proof fn lemma_multiple_of_divisor(x: int, a: int, b: int)
    requires
        a > 0,
        b > 0,
        b % a == 0,
        x % b == 0,
    ensures
        x % a == 0,
{
    let q = x / b;
    let k = b / a;
    assert(x == (q * k) * a) by (nonlinear_arith)
        requires
            q == x / b,
            x % b == 0,
            k == b / a,
            b % a == 0,
            a > 0,
            b > 0,
    ;
    vstd::arithmetic::div_mod::lemma_mod_multiples_basic(q * k, a);
}

/// The reason a size and alignment make no layout: the alignment is not a
/// power of two.
#[derive(Clone, Copy, Debug, PartialEq, Eq)]
pub struct LayoutError;

/// The size and alignment of a request. The alignment is a power of two.
///
/// A block is given back with the layout it was asked for with.
#[derive(Clone, Copy, Debug, PartialEq, Eq)]
pub struct Layout {
    size: usize,
    align: usize,
}

impl Layout {
    /// What every layout maintains: the alignment is a power of two.
    #[verifier::type_invariant]
    pub open spec fn wf(self) -> bool {
        is_pow2(self.align() as int)
    }

    pub closed spec fn spec_size(&self) -> usize {
        self.size
    }

    pub closed spec fn spec_align(&self) -> usize {
        self.align
    }

    /// The layout of `size` bytes aligned to `align`, or an error where
    /// `align` is not a power of two.
    pub fn from_size_align(size: usize, align: usize) -> (r: Result<Layout, LayoutError>)
        ensures
            match r {
                Ok(layout) => is_pow2(align as int) && layout.size() == size && layout.align()
                    == align,
                Err(_) => !is_pow2(align as int),
            },
    {
        if is_power_of_two(align) {
            Ok(Layout { size, align })
        } else {
            Err(LayoutError)
        }
    }

    /// Number of bytes asked for.
    #[verifier::when_used_as_spec(spec_size)]
    pub fn size(&self) -> (r: usize)
        ensures
            r == self.size(),
    {
        self.size
    }

    /// Alignment asked for: a power of two.
    #[verifier::when_used_as_spec(spec_align)]
    pub fn align(&self) -> (r: usize)
        ensures
            r == self.align(),
            is_pow2(r as int),
            r > 0,
    {
        proof {
            use_type_invariant(self);
            lemma_pow2_divides(self.align as int, self.align as int);
        }
        self.align
    }
}

} // verus!
