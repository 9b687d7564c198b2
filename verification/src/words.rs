//! Machine words kept as bytes, least significant byte first.

use crate::memory::{same_inside, same_outside};
use vstd::prelude::*;

verus! {

/// Bytes of a machine word.
pub open spec fn word_size() -> nat {
    usize::BITS as nat / 8
}

/// How many values `len` bytes can tell apart.
pub open spec fn span(len: nat) -> nat
    decreases len,
{
    if len == 0 {
        1
    } else {
        256 * span((len - 1) as nat)
    }
}

/// The number that `bytes` spell, least significant byte first.
pub open spec fn number(bytes: Seq<u8>) -> nat
    decreases bytes.len(),
{
    if bytes.len() == 0 {
        0
    } else {
        bytes[0] as nat + 256 * number(bytes.drop_first())
    }
}

/// The word that stands in `mem` at offset `at`.
pub open spec fn word_at(mem: Seq<u8>, at: int) -> usize {
    number(mem.subrange(at, at + word_size())) as usize
}

/// The `count` words that stand in `mem` from offset `at` on.
pub open spec fn words_at(mem: Seq<u8>, at: int, count: nat) -> Seq<usize> {
    Seq::new(count, |k: int| word_at(mem, at + k * word_size()))
}

pub proof fn lemma_word_size()
    ensures
        word_size() == 4 || word_size() == 8,
        span(word_size()) == usize::MAX + 1,
{
    reveal_with_fuel(span, 9);
}

proof fn lemma_span_monotone(low: nat, high: nat)
    requires
        low <= high,
    ensures
        0 < span(low) <= span(high),
    decreases high,
{
    if low < high {
        lemma_span_monotone(low, (high - 1) as nat);
    } else if low > 0 {
        lemma_span_monotone((low - 1) as nat, (high - 1) as nat);
    }
}

proof fn lemma_number_bound(bytes: Seq<u8>)
    ensures
        number(bytes) < span(bytes.len()),
    decreases bytes.len(),
{
    if bytes.len() > 0 {
        lemma_number_bound(bytes.drop_first());
    }
}

/// A word depends only on the bytes it is made of.
pub proof fn lemma_word_frame(left: Seq<u8>, right: Seq<u8>, at: int)
    requires
        0 <= at,
        at + word_size() <= left.len(),
        at + word_size() <= right.len(),
        same_inside(left, right, at, at + word_size()),
    ensures
        word_at(left, at) == word_at(right, at),
{
    assert(left.subrange(at, at + word_size()) =~= right.subrange(at, at + word_size()));
}

/// Bytes of a machine word.
pub fn word_bytes() -> (size: usize)
    ensures
        size == word_size(),
{
    broadcast use vstd::layout::layout_of_primitives;

    core::mem::size_of::<usize>()
}

/// Writes `value` into `memory` at offset `at`.
pub fn store_word(memory: &mut [u8], at: usize, value: usize)
    requires
        at + word_size() <= old(memory)@.len(),
    ensures
        word_at(final(memory)@, at as int) == value,
        same_outside(old(memory)@, final(memory)@, at as int, at + word_size()),
{
    let size: usize = word_bytes();
    let total: usize = memory.len();
    let mut rest: usize = value;
    let ghost mut scale: nat = 1;
    let mut done: usize = 0;
    proof {
        lemma_word_size();
        assert(memory@.subrange(at as int, at as int) =~= Seq::<u8>::empty());
    }
    while done < size
        invariant
            done <= size,
            size == word_size(),
            total == memory@.len(),
            at + size <= total,
            same_outside(old(memory)@, memory@, at as int, at + done),
            scale == span(done as nat),
            rest < span((size - done) as nat),
            value == number(memory@.subrange(at as int, at + done)) + scale * rest,
        decreases size - done,
    {
        let ghost written = memory@.subrange(at as int, at + done);
        let ghost before = rest;
        memory[at + done] = (rest % 256) as u8;
        rest = rest / 256;
        done = done + 1;
        proof {
            assert(memory@.subrange(at as int, at + done) =~= written.push((before % 256) as u8));
            lemma_number_push(written, (before % 256) as u8);
            assert(scale * before == scale * (before % 256) + (256 * scale) * (before / 256))
                by (nonlinear_arith);
            scale = 256 * scale;
        }
    }
    assert(rest == 0);
    assert(scale * rest == 0) by (nonlinear_arith)
        requires
            rest == 0,
    ;
}

proof fn lemma_number_push(bytes: Seq<u8>, byte: u8)
    ensures
        number(bytes.push(byte)) == number(bytes) + span(bytes.len()) * byte,
    decreases bytes.len(),
{
    if bytes.len() == 0 {
        assert(bytes.push(byte).drop_first() =~= Seq::<u8>::empty());
        assert(number(Seq::<u8>::empty()) == 0);
        assert(span(bytes.len()) == 1);
        assert(bytes.push(byte)[0] == byte);
    } else {
        assert(bytes.push(byte).drop_first() =~= bytes.drop_first().push(byte));
        lemma_number_push(bytes.drop_first(), byte);
        let tail = span((bytes.len() - 1) as nat);
        assert(span(bytes.len()) == 256 * tail);
        assert(256 * (tail * byte) == (256 * tail) * byte) by (nonlinear_arith);
        assert(bytes.push(byte)[0] == bytes[0]);
    }
}

/// Reads the word that stands in `memory` at offset `at`.
pub fn load_word(memory: &[u8], at: usize) -> (value: usize)
    requires
        at + word_size() <= memory@.len(),
    ensures
        value == word_at(memory@, at as int),
{
    let size: usize = word_bytes();
    let total: usize = memory.len();
    let mut value: usize = 0;
    let mut left: usize = size;
    proof {
        lemma_word_size();
        assert(memory@.subrange(at + size, at + size) =~= Seq::<u8>::empty());
    }
    while left > 0
        invariant
            left <= size,
            size == word_size(),
            total == memory@.len(),
            at + size <= total,
            value == number(memory@.subrange(at + left, at + size)),
            span(size as nat) == usize::MAX + 1,
        decreases left,
    {
        left = left - 1;
        proof {
            let here = memory@.subrange(at + left, at + size);
            assert(here.drop_first() =~= memory@.subrange(at + left + 1, at + size));
            lemma_number_bound(here);
            lemma_span_monotone(here.len(), size as nat);
        }
        value = memory[at + left] as usize + 256 * value;
    }
    value
}

} // verus!
