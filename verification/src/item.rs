//! Values that can be kept inside an arena as a fixed number of machine words.

use crate::memory::{same_inside, same_outside};
use crate::words::{
    lemma_word_frame, lemma_word_size, store_word, word_at, word_bytes, word_size, words_at,
};
use vstd::prelude::*;

verus! {

/// A value with an image of `word_count` machine words. Only the image is kept: the value
/// itself is given up as soon as it is stored, and each reading makes a new one. So an item
/// should have no destructor.
pub trait ArenaItem: Sized {
    /// How many words the image has.
    spec fn word_count() -> nat;

    /// The image of the value.
    spec fn words(self) -> Seq<usize>;

    /// The value that an image stands for.
    spec fn from_words(words: Seq<usize>) -> Self;

    /// An image has at least one word, and never many.
    proof fn lemma_word_count()
        ensures
            1 <= Self::word_count() <= 16,
    ;

    /// An image has the announced length and stands for the value it was made from.
    proof fn lemma_round_trip(self)
        ensures
            self.words().len() == Self::word_count(),
            Self::from_words(self.words()) == self,
    ;

    /// How many words the image has.
    fn count() -> (words: usize)
        ensures
            words == Self::word_count(),
    ;

    /// Word number `index` of the image.
    fn word(&self, index: usize) -> (word: usize)
        requires
            index < Self::word_count(),
        ensures
            word == self.words()[index as int],
    ;

    /// Reads back the value whose image stands in `memory` at offset `at`.
    fn load(memory: &[u8], at: usize) -> (item: Self)
        requires
            at + Self::word_count() * word_size() <= memory@.len(),
        ensures
            item == Self::from_words(words_at(memory@, at as int, Self::word_count())),
    ;
}

/// Bytes that one item takes in an arena.
pub open spec fn item_size<T: ArenaItem>() -> nat {
    T::word_count() * word_size()
}

/// The item whose image stands in `mem` at offset `at`.
pub open spec fn item_at<T: ArenaItem>(mem: Seq<u8>, at: int) -> T {
    T::from_words(words_at(mem, at, T::word_count()))
}

/// Where item number `index` of a run that begins at `start` stands.
pub open spec fn slot<T: ArenaItem>(start: int, index: int) -> int {
    start + index * item_size::<T>()
}

/// The first `count` items of a run that begins at `start`.
pub open spec fn items_at<T: ArenaItem>(mem: Seq<u8>, start: int, count: nat) -> Seq<T> {
    Seq::new(count, |i: int| item_at::<T>(mem, slot::<T>(start, i)))
}

/// Word `index` of `count` words lies inside the bytes of all of them.
proof fn lemma_word_inside(index: int, count: int)
    requires
        0 <= index < count,
    ensures
        0 <= index * word_size(),
        index * word_size() + word_size() <= count * word_size(),
{
    lemma_word_size();
    assert(0 <= index * word_size() && index * word_size() + word_size() <= count * word_size())
        by (nonlinear_arith)
        requires
            0 <= index < count,
            word_size() > 0,
    ;
}

/// Slots follow one another without overlap.
pub proof fn lemma_slots_apart<T: ArenaItem>(start: int, index: int, count: int)
    requires
        0 <= index < count,
    ensures
        start <= slot::<T>(start, index),
        slot::<T>(start, index) + item_size::<T>() == slot::<T>(start, index + 1),
        slot::<T>(start, index + 1) <= slot::<T>(start, count),
{
    let size = item_size::<T>() as int;
    assert(0 <= index * size && index * size + size == (index + 1) * size && (index + 1) * size
        <= count * size) by (nonlinear_arith)
        requires
            0 <= index < count,
            size >= 0,
    ;
}

/// An item depends only on the bytes of its image.
pub proof fn lemma_item_frame<T: ArenaItem>(left: Seq<u8>, right: Seq<u8>, at: int)
    requires
        0 <= at,
        at + item_size::<T>() <= left.len(),
        at + item_size::<T>() <= right.len(),
        same_inside(left, right, at, at + item_size::<T>()),
    ensures
        item_at::<T>(left, at) == item_at::<T>(right, at),
{
    let count = T::word_count();
    assert forall|k: int| 0 <= k < count implies words_at(left, at, count)[k] == words_at(
        right,
        at,
        count,
    )[k] by {
        lemma_word_inside(k, count as int);
        lemma_word_frame(left, right, at + k * word_size());
    }
    assert(words_at(left, at, count) =~= words_at(right, at, count));
}

/// A run of items depends only on the bytes it covers.
pub proof fn lemma_items_frame<T: ArenaItem>(
    left: Seq<u8>,
    right: Seq<u8>,
    start: int,
    count: nat,
)
    requires
        0 <= start,
        slot::<T>(start, count as int) <= left.len(),
        slot::<T>(start, count as int) <= right.len(),
        same_inside(left, right, start, slot::<T>(start, count as int)),
    ensures
        items_at::<T>(left, start, count) == items_at::<T>(right, start, count),
{
    assert forall|i: int| 0 <= i < count implies items_at::<T>(left, start, count)[i] == items_at::<
        T,
    >(right, start, count)[i] by {
        lemma_slots_apart::<T>(start, i, count as int);
        lemma_item_frame::<T>(left, right, slot::<T>(start, i));
    }
    assert(items_at::<T>(left, start, count) =~= items_at::<T>(right, start, count));
}

/// A run of items survives being copied byte for byte.
pub proof fn lemma_items_moved<T: ArenaItem>(
    before: Seq<u8>,
    from: int,
    after: Seq<u8>,
    to: int,
    count: nat,
)
    requires
        0 <= from,
        0 <= to,
        slot::<T>(from, count as int) <= before.len(),
        slot::<T>(to, count as int) <= after.len(),
        forall|k: int|
            0 <= k < count * item_size::<T>() ==> after[to + k] == #[trigger] before[from + k],
    ensures
        items_at::<T>(after, to, count) == items_at::<T>(before, from, count),
{
    let words = T::word_count();
    assert forall|i: int| 0 <= i < count implies items_at::<T>(after, to, count)[i] == items_at::<
        T,
    >(before, from, count)[i] by {
        lemma_slots_apart::<T>(from, i, count as int);
        lemma_slots_apart::<T>(to, i, count as int);
        let source = slot::<T>(from, i);
        let target = slot::<T>(to, i);
        assert forall|k: int| 0 <= k < words implies words_at(after, target, words)[k] == words_at(
            before,
            source,
            words,
        )[k] by {
            lemma_word_inside(k, words as int);
            let shift = i * item_size::<T>() + k * word_size();
            let old_run = before.subrange(from + shift, from + shift + word_size());
            let new_run = after.subrange(to + shift, to + shift + word_size());
            assert forall|j: int| 0 <= j < word_size() implies new_run[j] == old_run[j] by {
                assert(after[to + (shift + j)] == before[from + (shift + j)]);
            }
            assert(new_run =~= old_run);
        }
        assert(words_at(after, target, words) =~= words_at(before, source, words));
    }
    assert(items_at::<T>(after, to, count) =~= items_at::<T>(before, from, count));
}

/// Bytes that one item takes in an arena.
pub fn item_bytes<T: ArenaItem>() -> (size: usize)
    ensures
        size == item_size::<T>(),
        1 <= size <= 128,
{
    let words: usize = T::count();
    let size: usize = word_bytes();
    proof {
        T::lemma_word_count();
        lemma_word_size();
        assert(1 <= words * size <= 128) by (nonlinear_arith)
            requires
                1 <= words <= 16,
                1 <= size <= 8,
        ;
    }
    words * size
}

/// Writes the image of `item` into `memory` at offset `at`.
pub fn store_item<T: ArenaItem>(memory: &mut [u8], at: usize, item: &T)
    requires
        at + item_size::<T>() <= old(memory)@.len(),
    ensures
        item_at::<T>(final(memory)@, at as int) == *item,
        same_outside(old(memory)@, final(memory)@, at as int, at + item_size::<T>()),
{
    let words: usize = T::count();
    let size: usize = word_bytes();
    let total: usize = memory.len();
    let mut done: usize = 0;
    let mut place: usize = at;
    proof {
        T::lemma_word_count();
        item.lemma_round_trip();
        lemma_word_size();
    }
    while done < words
        invariant
            done <= words,
            words == T::word_count(),
            size == word_size(),
            total == memory@.len(),
            at + words * size <= total,
            place == at + done * size,
            item.words().len() == words,
            same_outside(old(memory)@, memory@, at as int, at + words * size),
            forall|k: int|
                0 <= k < done ==> word_at(memory@, #[trigger] (at + k * word_size()))
                    == item.words()[k],
        decreases words - done,
    {
        let ghost before = memory@;
        proof {
            lemma_word_inside(done as int, words as int);
            assert((done + 1) * size == done * size + size) by (nonlinear_arith);
        }
        store_word(memory, place, item.word(done));
        proof {
            assert forall|k: int| 0 <= k < done implies word_at(
                memory@,
                #[trigger] (at + k * word_size()),
            ) == item.words()[k] by {
                lemma_word_inside(k, done as int);
                lemma_word_frame(before, memory@, at + k * word_size());
            }
        }
        done = done + 1;
        place = place + size;
    }
    assert(words_at(memory@, at as int, T::word_count()) =~= item.words());
}

} // verus!
