//! Rounding offsets up to an alignment.

use vstd::arithmetic::power2::pow2;
use vstd::prelude::*;

verus! {

/// `offset` rounded up to `align` by masking off the low bits.
pub open spec fn align_up(offset: usize, align: usize) -> usize {
    ((offset + align - 1) as usize) & !((align - 1) as usize)
}

/// Rounding up never moves an offset back, and moves it by less than `align`,
/// whether or not `align` is a power of two.
pub proof fn lemma_align_up_range(offset: usize, align: usize)
    requires
        1 <= align,
        offset + align - 1 <= usize::MAX,
    ensures
        offset <= align_up(offset, align) < offset + align,
{
    let raised = (offset + align - 1) as usize;
    let mask = (align - 1) as usize;
    assert((raised & !mask) + (raised & mask) == raised) by (bit_vector);
    assert((raised & mask) <= mask) by (bit_vector);
}

/// Whatever the alignment, none of the bits of `align - 1` is left, and all others are
/// those of the offset that is `align - 1` further on.
pub proof fn lemma_align_up_bits(offset: usize, align: usize)
    requires
        1 <= align,
        offset + align - 1 <= usize::MAX,
    ensures
        align_up(offset, align) & ((align - 1) as usize) == 0,
        align_up(offset, align) | ((align - 1) as usize) == ((offset + align - 1) as usize) | ((align
            - 1) as usize),
{
    let raised = (offset + align - 1) as usize;
    let mask = (align - 1) as usize;
    assert((raised & !mask) & mask == 0) by (bit_vector);
    assert((raised & !mask) | mask == raised | mask) by (bit_vector);
}

/// For a power of two, rounding up gives the least multiple of `align` that is not
/// below `offset`.
pub proof fn lemma_align_up_least_multiple(offset: usize, align: usize, exponent: nat)
    requires
        align == pow2(exponent),
        offset + align - 1 <= usize::MAX,
    ensures
        align_up(offset, align) as int % align as int == 0,
        forall|other: int|
            offset <= other && #[trigger] (other % align as int) == 0 ==> align_up(offset, align)
                <= other,
{
    let raised = (offset + align - 1) as usize;
    let mask = (align - 1) as usize;
    let result = align_up(offset, align) as int;
    let step = align as int;
    vstd::arithmetic::power2::lemma_pow2_pos(exponent);
    assert(exponent < usize::BITS) by {
        if exponent >= usize::BITS {
            vstd::arithmetic::power2::lemma2_to64();
            if exponent > usize::BITS {
                vstd::arithmetic::power2::lemma_pow2_strictly_increases(
                    usize::BITS as nat,
                    exponent,
                );
            }
        }
    }
    assert((raised & !mask) + (raised & mask) == raised) by (bit_vector);
    vstd::bits::lemma_usize_low_bits_mask_is_mod(raised, exponent);
    assert(raised & mask == raised % align);
    let quotient = raised as int / step;
    vstd::arithmetic::div_mod::lemma_fundamental_div_mod(raised as int, step);
    assert(result == step * quotient);
    assert(step * quotient == quotient * step) by (nonlinear_arith);
    vstd::arithmetic::div_mod::lemma_mod_multiples_basic(quotient, step);
    assert forall|other: int|
        offset <= other && #[trigger] (other % step) == 0 implies result <= other by {
        vstd::arithmetic::div_mod::lemma_fundamental_div_mod(other, step);
        let count = other / step;
        lemma_align_up_range(offset, align);
        if other < result {
            assert(count < quotient) by (nonlinear_arith)
                requires
                    step * count < step * quotient,
                    step > 0,
            ;
            assert(step * count + step <= step * quotient) by (nonlinear_arith)
                requires
                    count + 1 <= quotient,
                    step > 0,
            ;
        }
    }
}

/// An offset that is a multiple of a power of two is rounded to itself.
pub proof fn lemma_align_up_of_multiple(offset: usize, align: usize, exponent: nat)
    requires
        align == pow2(exponent),
        offset + align - 1 <= usize::MAX,
        offset as int % align as int == 0,
    ensures
        align_up(offset, align) == offset,
{
    vstd::arithmetic::power2::lemma_pow2_pos(exponent);
    lemma_align_up_least_multiple(offset, align, exponent);
    lemma_align_up_range(offset, align);
}

/// Alignment to a single byte changes nothing.
pub proof fn lemma_align_up_of_byte(offset: usize)
    ensures
        align_up(offset, 1) == offset,
{
    assert(offset & !0usize == offset) by (bit_vector);
}

} // verus!
