//! How large a chunk each thread should be given.

use vstd::prelude::*;

verus! {

/// Bytes of a mebibyte.
pub const MIB: usize = 1024 * 1024;

/// `percent` per cent of `used` bytes, rounded up to whole mebibytes.
pub open spec fn recommended(used: int, percent: int) -> int {
    (used * percent / 100 + (MIB - 1)) / MIB as int * MIB
}

/// No step of the computation exceeds a machine word.
pub open spec fn recommended_fits(used: int, percent: int) -> bool {
    &&& used * percent <= usize::MAX
    &&& used * percent / 100 + (MIB - 1) <= usize::MAX
}

/// The recommended size, if it can be computed in machine words.
pub open spec fn recommendation(used: int, percent: int) -> Option<usize> {
    if recommended_fits(used, percent) {
        Some(recommended(used, percent) as usize)
    } else {
        None
    }
}

/// The recommended size is a whole number of mebibytes, covers the percentage asked for,
/// and wastes less than one mebibyte on rounding.
pub proof fn lemma_recommended(used: int, percent: int)
    requires
        0 <= used,
        0 <= percent,
    ensures
        recommended(used, percent) % MIB as int == 0,
        used * percent / 100 <= recommended(used, percent) < used * percent / 100 + MIB,
        percent >= 100 ==> used <= recommended(used, percent),
{
    assert(0 <= used * percent) by (nonlinear_arith)
        requires
            0 <= used,
            0 <= percent,
    ;
    if percent >= 100 {
        assert(used * 100 <= used * percent) by (nonlinear_arith)
            requires
                0 <= used,
                100 <= percent,
        ;
    }
}

/// There is a recommendation if and only if neither the product nor its hundredth with a
/// mebibyte less one byte exceeds a machine word. It is the smallest whole number of
/// mebibytes that is not below `percent` hundredths of `used`.
pub proof fn lemma_recommendation_exactly(used: int, percent: int)
    requires
        0 <= used,
        0 <= percent,
    ensures
        recommendation(used, percent) is Some <==> {
            &&& used * percent <= usize::MAX
            &&& used * percent / 100 + 1_048_575 <= usize::MAX
        },
        recommendation(used, percent) matches Some(size) ==> {
            &&& size as int % 1_048_576 == 0
            &&& used * percent / 100 <= size
            &&& forall|other: int|
                #[trigger] (other % 1_048_576) == 0 && used * percent / 100 <= other ==> size
                    <= other
        },
{
    lemma_recommended(used, percent);
}

/// More use never means a smaller recommendation, nor does a larger percentage.
pub proof fn lemma_recommendation_monotone(less: int, more: int, low: int, high: int)
    requires
        0 <= less <= more,
        0 <= low <= high,
    ensures
        recommendation(more, high) matches Some(large) ==> recommendation(less, low) matches Some(
            small,
        ) && small <= large,
{
    assert(0 <= less * low <= more * high) by (nonlinear_arith)
        requires
            0 <= less <= more,
            0 <= low <= high,
    ;
    lemma_recommended(less, low);
    lemma_recommended(more, high);
}

/// The chunk size to recommend after `used` bytes have been used: `percent` per cent of
/// them, rounded up to whole mebibytes. Nothing if a step would exceed a machine word.
pub fn recommended_chunk_size(used: usize, percent: usize) -> (size: Option<usize>)
    ensures
        size == recommendation(used as int, percent as int),
        size is Some <==> used * percent <= usize::MAX && used * percent / 100 + 1_048_575
            <= usize::MAX,
        size matches Some(bytes) ==> {
            &&& bytes as int % 1_048_576 == 0
            &&& used * percent / 100 <= bytes < used * percent / 100 + 1_048_576
        },
{
    proof {
        lemma_recommended(used as int, percent as int);
    }
    let scaled: usize = match used.checked_mul(percent) {
        Some(scaled) => scaled,
        None => {
            return None;
        },
    };
    let raised: usize = match (scaled / 100).checked_add(MIB - 1) {
        Some(raised) => raised,
        None => {
            return None;
        },
    };
    Some(raised / MIB * MIB)
}

/// The bytes that `threads` chunks take together. Nothing if they exceed a machine word.
pub fn total_capacity(chunk_size: usize, threads: usize) -> (total: Option<usize>)
    ensures
        total == if chunk_size * threads <= usize::MAX {
            Some((chunk_size * threads) as usize)
        } else {
            None
        },
{
    chunk_size.checked_mul(threads)
}

/// Whole mebibytes in `bytes`.
pub fn whole_mebibytes(bytes: usize) -> (count: usize)
    ensures
        count == bytes as int / MIB as int,
        count * 1_048_576 <= bytes < (count + 1) * 1_048_576,
{
    bytes / MIB
}

} // verus!
