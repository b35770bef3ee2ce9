//! Alignment arithmetic shared by the allocators: rounding an address up
//! to a requested power-of-two alignment, and the padding that rounding
//! introduces.

use vstd::prelude::*;

verus! {

/// A positive integer that is a power of two.
pub open spec fn is_power_of_two(n: int) -> bool
    decreases n,
{
    if n <= 0 {
        false
    } else if n == 1 {
        true
    } else {
        n % 2 == 0 && is_power_of_two(n / 2)
    }
}

/// Bytes that must be skipped to move `base` up to the next multiple of
/// `align` (zero when `base` is already aligned).
pub open spec fn pad_for(base: int, align: int) -> int {
    (align - base % align) % align
}

/// `base` rounded up to the next multiple of `align`.
pub open spec fn round_up(base: int, align: int) -> int {
    base + pad_for(base, align)
}

/// The padding is less than one alignment unit, and rounding up lands on
/// a multiple of the alignment.
pub proof fn lemma_pad_for(base: int, align: int)
    requires
        0 <= base,
        1 <= align,
    ensures
        0 <= pad_for(base, align) < align,
        round_up(base, align) % align == 0,
{
    let r = base % align;
    vstd::arithmetic::div_mod::lemma_mod_division_less_than_divisor(base, align);
    if r == 0 {
        vstd::arithmetic::div_mod::lemma_mod_self_0(align);
        assert(pad_for(base, align) == 0);
        assert(round_up(base, align) % align == 0);
    } else {
        vstd::arithmetic::div_mod::lemma_small_mod((align - r) as nat, align as nat);
        assert(pad_for(base, align) == align - r);
        vstd::arithmetic::div_mod::lemma_fundamental_div_mod(base, align);
        let q = base / align;
        assert(round_up(base, align) == (q + 1) * align) by {
            assert(base == q * align + r);
            assert((q + 1) * align == q * align + align) by (nonlinear_arith);
        }
        vstd::arithmetic::div_mod::lemma_mod_multiples_basic(q + 1, align);
    }
}

/// A power of two is at least one.
pub proof fn lemma_power_of_two_pos(n: int)
    requires
        is_power_of_two(n),
    ensures
        n >= 1,
{
}

/// Computes `pad_for(base, align)` in machine integers.
pub fn pad_up(base: usize, align: usize) -> (pad: usize)
    requires
        is_power_of_two(align as int),
    ensures
        pad == pad_for(base as int, align as int),
        pad < align,
{
    proof {
        lemma_pad_for(base as int, align as int);
    }
    let rem = base % align;
    if rem == 0 {
        proof {
            vstd::arithmetic::div_mod::lemma_mod_self_0(align as int);
        }
        0
    } else {
        proof {
            vstd::arithmetic::div_mod::lemma_small_mod((align - rem) as nat, align as nat);
        }
        align - rem
    }
}

} // verus!
