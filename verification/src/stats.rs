//! The middle of a set of measurements.

use vstd::multiset::Multiset;
use vstd::prelude::*;
use vstd::relations::{sorted_by, total_ordering};

verus! {

/// The order of the measurements.
pub open spec fn at_most() -> spec_fn(u128, u128) -> bool {
    |a: u128, b: u128| a <= b
}

/// The measurements from least to greatest.
pub open spec fn ascending(times: Seq<u128>) -> Seq<u128> {
    times.sort_by(at_most())
}

/// The measurement in the middle; of an even number, the greater of the two.
pub open spec fn middle(times: Seq<u128>) -> u128 {
    ascending(times)[times.len() as int / 2]
}

/// How many measurements lie below `mark`.
pub open spec fn below(times: Seq<u128>, mark: u128) -> nat {
    times.to_multiset().filter(|t: u128| t < mark).len()
}

/// How many measurements do not lie above `mark`.
pub open spec fn not_above(times: Seq<u128>, mark: u128) -> nat {
    times.to_multiset().filter(|t: u128| t <= mark).len()
}

/// `mark` is one of the measurements; at most half of them lie below it, and more than half
/// do not lie above it.
pub open spec fn is_median(mark: u128, times: Seq<u128>) -> bool {
    &&& times.contains(mark)
    &&& below(times, mark) <= times.len() / 2 < not_above(times, mark)
}

/// No two numbers are both the median of the same measurements.
pub proof fn lemma_median_unique(one: u128, two: u128, times: Seq<u128>)
    requires
        is_median(one, times),
        is_median(two, times),
    ensures
        one == two,
{
    broadcast use vstd::multiset::group_multiset_axioms;

    let all = times.to_multiset();
    let (small, large) = if one < two {
        (one, two)
    } else {
        (two, one)
    };
    if small < large {
        lemma_within(all.filter(|t: u128| t <= small), all.filter(|t: u128| t < large));
    }
}

proof fn lemma_ascending(times: Seq<u128>)
    ensures
        total_ordering(at_most()),
        sorted_by(ascending(times), at_most()),
        ascending(times).to_multiset() == times.to_multiset(),
        ascending(times).len() == times.len(),
{
    assert(total_ordering(at_most()));
    times.lemma_sort_by_ensures(at_most());
    vstd::seq_lib::to_multiset_len(times);
    vstd::seq_lib::to_multiset_len(ascending(times));
}

/// A multiset is no larger than one that holds all of it.
proof fn lemma_within(small: Multiset<u128>, large: Multiset<u128>)
    requires
        small.subset_of(large),
    ensures
        small.len() <= large.len(),
{
    broadcast use vstd::multiset::group_multiset_axioms;

    assert(large =~= large.sub(small).add(small));
}

/// The middle is one of the measurements; at most half of them lie below it, and more
/// than half do not lie above it.
pub proof fn lemma_middle_rank(times: Seq<u128>)
    requires
        times.len() > 0,
    ensures
        times.contains(middle(times)),
        below(times, middle(times)) <= times.len() / 2 < not_above(times, middle(times)),
{
    broadcast use vstd::multiset::group_multiset_axioms;

    lemma_ascending(times);
    let sorted = ascending(times);
    let half = times.len() as int / 2;
    let mark = middle(times);
    let all = times.to_multiset();
    vstd::seq_lib::to_multiset_contains(times, mark);
    vstd::seq_lib::to_multiset_contains(sorted, mark);
    assert(sorted.contains(sorted[half]));

    let low = sorted.take(half);
    let high = sorted.skip(half);
    assert(sorted =~= low + high);
    vstd::seq_lib::lemma_multiset_commutative(low, high);
    let under = all.filter(|t: u128| t < mark);
    assert forall|t: u128| under.count(t) <= low.to_multiset().count(t) by {
        if t < mark {
            vstd::seq_lib::to_multiset_contains(high, t);
            if high.contains(t) {
                let i = choose|i: int| 0 <= i < high.len() && high[i] == t;
                assert(sorted[half + i] == t);
                if i > 0 {
                    assert(at_most()(sorted[half], sorted[half + i]));
                }
            }
            assert(high.to_multiset().count(t) == 0);
        }
    }
    lemma_within(under, low.to_multiset());
    vstd::seq_lib::to_multiset_len(low);

    let front = sorted.take(half + 1);
    let back = sorted.skip(half + 1);
    assert(sorted =~= front + back);
    vstd::seq_lib::lemma_multiset_commutative(front, back);
    let upto = all.filter(|t: u128| t <= mark);
    assert forall|t: u128| front.to_multiset().count(t) <= upto.count(t) by {
        vstd::seq_lib::to_multiset_contains(front, t);
        if front.contains(t) {
            let i = choose|i: int| 0 <= i < front.len() && front[i] == t;
            assert(sorted[i] == t);
            if i < half {
                assert(at_most()(sorted[i], sorted[half]));
            }
        }
    }
    lemma_within(front.to_multiset(), upto);
    vstd::seq_lib::to_multiset_len(front);
}

/// The order in which the measurements were taken does not matter.
pub proof fn lemma_middle_of_permutation(one: Seq<u128>, two: Seq<u128>)
    requires
        one.to_multiset() == two.to_multiset(),
    ensures
        middle(one) == middle(two),
{
    lemma_ascending(one);
    lemma_ascending(two);
    vstd::seq_lib::to_multiset_len(one);
    vstd::seq_lib::to_multiset_len(two);
    vstd::seq_lib::lemma_sorted_unique(ascending(one), ascending(two), at_most());
}

/// `slice::sort_unstable`: the same measurements, in ascending order.
#[verifier::external_body]
fn sort_unstable(times: &mut Vec<u128>)
    ensures
        sorted_by(final(times)@, at_most()),
        final(times)@.to_multiset() == old(times)@.to_multiset(),
{
    times.sort_unstable()
}

/// The measurement in the middle; of an even number, the greater of the two.
pub fn median(times: &[u128]) -> (mark: u128)
    requires
        times@.len() > 0,
    ensures
        mark == middle(times@),
        is_median(mark, times@),
{
    let mut sorted: Vec<u128> = vstd::slice::slice_to_vec(times);
    sort_unstable(&mut sorted);
    proof {
        lemma_ascending(times@);
        vstd::seq_lib::lemma_sorted_unique(sorted@, ascending(times@), at_most());
    }
    proof {
        lemma_middle_rank(times@);
    }
    sorted[sorted.len() / 2]
}

} // verus!
