use vstd::arithmetic::div_mod::{
    lemma_div_is_ordered, lemma_fundamental_div_mod, lemma_mod_multiples_basic,
};
use vstd::arithmetic::mul::lemma_mul_inequality;
use vstd::arithmetic::power2::is_pow2;
use vstd::layout::{align_of, layout_for_type_is_valid, size_of};
use vstd::prelude::*;

verus! {

/// The size and alignment of a block of memory.
#[derive(Debug, Clone, Copy, PartialEq, Eq, Structural)]
pub struct Layout {
    pub size: usize,
    pub align: usize,
}

/// `b` is a multiple of `a` when both are powers of two and `a <= b`.
pub proof fn lemma_pow2_divides(a: int, b: int)
    requires
        is_pow2(a),
        is_pow2(b),
        a <= b,
    ensures
        b % a == 0,
    decreases b,
{
    reveal(is_pow2);
    if a == b {
    } else if a == 1 {
    } else {
        assert(a % 2 == 0 && is_pow2(a / 2));
        assert(b % 2 == 0 && is_pow2(b / 2));
        lemma_pow2_divides(a / 2, b / 2);
        let q = (b / 2) / (a / 2);
        assert(b / 2 == q * (a / 2)) by (nonlinear_arith)
            requires
                (b / 2) % (a / 2) == 0,
                a / 2 > 0,
                q == (b / 2) / (a / 2),
        ;
        assert(b == q * a) by (nonlinear_arith)
            requires
                b / 2 == q * (a / 2),
                a % 2 == 0,
                b % 2 == 0,
        ;
        assert(b % a == 0) by (nonlinear_arith)
            requires
                b == q * a,
                a > 0,
        ;
    }
}

/// Rounding `y` down to a multiple of `a` gives a multiple of `a` that no
/// multiple `x` of `a` below `y` exceeds.
pub proof fn lemma_align_down(y: int, a: int, x: int)
    requires
        a > 0,
        0 <= x <= y,
        x % a == 0,
    ensures
        (y - y % a) % a == 0,
        x <= y - y % a <= y,
{
    lemma_fundamental_div_mod(y, a);
    lemma_fundamental_div_mod(x, a);
    lemma_div_is_ordered(x, y, a);
    lemma_mul_inequality(x / a, y / a, a);
    lemma_mod_multiples_basic(y / a, a);
    assert(a * (y / a) == (y / a) * a) by (nonlinear_arith);
    assert(a * (x / a) == (x / a) * a) by (nonlinear_arith);
}

impl Layout {
    /// The alignment is a power of two.
    pub open spec fn wf(&self) -> bool {
        is_pow2(self.align as int)
    }

    /// The layout of a value of type `T`.
    pub fn new<T>() -> (r: Layout)
        ensures
            r.size == size_of::<T>(),
            r.align == align_of::<T>(),
            r.wf(),
    {
        layout_for_type_is_valid::<T>();
        Layout { size: core::mem::size_of::<T>(), align: core::mem::align_of::<T>() }
    }

    /// The layout of `n` values of type `T` side by side, or `None` where
    /// its size does not fit in an `isize`.
    pub fn array<T>(n: usize) -> (r: Option<Layout>)
        ensures
            n * size_of::<T>() <= isize::MAX ==> r == Some(
                Layout { size: (n * size_of::<T>()) as usize, align: align_of::<T>() as usize },
            ),
            n * size_of::<T>() > isize::MAX ==> r is None,
            r matches Some(l) ==> l.wf(),
    {
        layout_for_type_is_valid::<T>();
        let elem = core::mem::size_of::<T>();
        match n.checked_mul(elem) {
            None => None,
            Some(size) => {
                if size > isize::MAX as usize {
                    None
                } else {
                    Some(Layout { size, align: core::mem::align_of::<T>() })
                }
            },
        }
    }
}

} // verus!
