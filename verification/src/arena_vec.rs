//! Growable vectors whose items live in an arena.

use crate::bump::ThreadBump;
use crate::item::{
    item_bytes, item_size, items_at, lemma_items_frame, lemma_items_moved, lemma_slots_apart, slot,
    ArenaItem,
};
use crate::memory::{overwrite, same_inside, same_outside};
use crate::words::{lemma_word_size, load_word, word_bytes, word_size};
use core::marker::PhantomData;
use vstd::prelude::*;

verus! {

/// Where in an arena the items of a vector stand, and how many there are and may be.
pub struct ArenaVec<T> {
    start: usize,
    len: usize,
    cap: usize,
    home: usize,
    items: PhantomData<T>,
}

/// The capacity that follows `cap` when a vector has to grow.
pub open spec fn grown(cap: usize) -> int {
    if cap == 0 {
        4
    } else {
        cap * 2
    }
}

/// Growing doubles the slots, and four slots follow on none. So as many items as there are
/// can be added after a vector has grown before it has to grow again.
pub proof fn lemma_growth_doubles(cap: usize)
    ensures
        cap > 0 ==> grown(cap) == 2 * cap && grown(cap) - cap == cap,
        cap == 0 ==> grown(cap) == 4,
{
}

/// There is room for one more item if and only if a slot is free, or twice as many slots
/// (four, if there are none) are still to be had.
pub proof fn lemma_can_push_exactly<T: ArenaItem>(vec: ArenaVec<T>, bump: ThreadBump<'_>)
    ensures
        vec.can_push(bump) <==> {
            ||| vec.len() < vec.cap()
            ||| vec.cap() > 0 && bump.room_for(
                2 * vec.cap() * item_size::<T>(),
                word_size() as usize,
            )
            ||| vec.cap() == 0 && bump.room_for(4int * item_size::<T>(), word_size() as usize)
        },
{
    assert(vec.cap() * 2 == 2 * vec.cap());
}

impl<T: ArenaItem> ArenaVec<T> {
    /// Offset of the first slot.
    pub closed spec fn start(self) -> usize {
        self.start
    }

    /// Number of items.
    pub closed spec fn len(self) -> usize {
        self.len
    }

    /// Number of slots.
    pub closed spec fn cap(self) -> usize {
        self.cap
    }

    /// The part of the arena that the slots were taken from.
    pub closed spec fn home(self) -> usize {
        self.home
    }

    /// Offset behind the last slot.
    pub open spec fn end(self) -> int {
        slot::<T>(self.start() as int, self.cap() as int)
    }

    /// The items of the vector in `mem`.
    pub open spec fn items_in(self, mem: Seq<u8>) -> Seq<T> {
        items_at::<T>(mem, self.start() as int, self.len() as nat)
    }

    /// The slots have been handed out by `bump` and not been taken back.
    pub open spec fn valid_in(self, bump: ThreadBump<'_>) -> bool {
        &&& self.home() == bump.home()
        &&& self.len() <= self.cap()
        &&& self.start() as int % word_size() as int == 0
        &&& self.end() <= bump.used() <= bump.bytes().len()
    }

    /// There is room in `bump` for one more item, be it by growing.
    pub open spec fn can_push(self, bump: ThreadBump<'_>) -> bool {
        self.len() < self.cap() || bump.room_for_items::<T>(grown(self.cap()))
    }

    /// An empty vector with `capacity` slots.
    pub fn with_capacity_in(capacity: usize, bump: &mut ThreadBump<'_>) -> (vec: ArenaVec<T>)
        requires
            old(bump).wf(),
            old(bump).room_for_items::<T>(capacity as int),
        ensures
            vec.valid_in(*final(bump)),
            vec.cap() == capacity,
            vec.len() == 0,
            vec.items_in(final(bump).bytes()) == Seq::<T>::empty(),
            capacity == 0 ==> vec.start() == 0 && final(bump).used() == old(bump).used(),
            capacity > 0 ==> vec.start() == old(bump).next_word() && final(bump).used()
                == vec.end() && old(bump).used() <= vec.start(),
            final(bump).wf(),
            final(bump).bytes() == old(bump).bytes(),
            final(bump).home() == old(bump).home(),
            final(final(bump).memory)@ == final(old(bump).memory)@,
    {
        let home: usize = bump.home;
        proof {
            lemma_word_size();
        }
        let start: usize = match bump.alloc_uninit_slice::<T>(capacity) {
            Some(start) => start,
            None => 0,
        };
        let vec = ArenaVec::<T> { start, len: 0, cap: capacity, home, items: PhantomData };
        assert(vec.items_in(bump.bytes()) =~= Seq::<T>::empty());
        vec
    }

    /// Whether there is room in `bump` for one more item, be it by growing.
    pub fn has_room(&self, bump: &ThreadBump<'_>) -> (fits: bool)
        requires
            self.valid_in(*bump),
        ensures
            fits == self.can_push(*bump),
    {
        if self.len < self.cap {
            return true;
        }
        let total: usize = bump.capacity();
        let size: usize = item_bytes::<T>();
        let align: usize = word_bytes();
        proof {
            let wanted = grown(self.cap);
            assert(wanted <= wanted * size) by (nonlinear_arith)
                requires
                    0 <= wanted,
                    1 <= size,
            ;
        }
        let new_cap: usize = if self.cap == 0 {
            4
        } else {
            match self.cap.checked_mul(2) {
                Some(new_cap) => new_cap,
                None => {
                    return false;
                },
            }
        };
        match new_cap.checked_mul(size) {
            Some(bytes) => bump.has_room(bytes, align),
            None => false,
        }
    }

    /// Appends `value`, after moving to a larger run of slots if all are taken.
    pub fn push(&mut self, bump: &mut ThreadBump<'_>, value: T)
        requires
            old(self).valid_in(*old(bump)),
            old(self).can_push(*old(bump)),
        ensures
            final(self).valid_in(*final(bump)),
            final(self).items_in(final(bump).bytes()) == old(self).items_in(
                old(bump).bytes(),
            ).push(value),
            final(self).len() == old(self).len() + 1,
            old(self).len() < old(self).cap() ==> {
                &&& final(self).start() == old(self).start()
                &&& final(self).cap() == old(self).cap()
                &&& final(bump).used() == old(bump).used()
                &&& same_outside(
                    old(bump).bytes(),
                    final(bump).bytes(),
                    slot::<T>(old(self).start() as int, old(self).len() as int),
                    slot::<T>(old(self).start() as int, old(self).len() + 1),
                )
            },
            old(self).len() == old(self).cap() ==> {
                &&& final(self).start() == old(bump).next_word()
                &&& final(self).cap() == grown(old(self).cap())
                &&& old(self).cap() > 0 ==> final(self).cap() == 2 * old(self).cap()
                &&& old(self).cap() == 0 ==> final(self).cap() == 4
                &&& final(bump).used() == final(self).end()
                &&& old(bump).used() <= final(self).start()
                &&& same_outside(
                    old(bump).bytes(),
                    final(bump).bytes(),
                    final(self).start() as int,
                    slot::<T>(final(self).start() as int, old(self).len() + 1),
                )
            },
            final(bump).wf(),
            final(bump).home() == old(bump).home(),
            final(final(bump).memory)@ == final(old(bump).memory)@,
    {
        let ghost first = self.items_in(bump.bytes());
        if self.len == self.cap {
            self.grow(bump);
        }
        let total: usize = bump.capacity();
        let size: usize = item_bytes::<T>();
        let ghost before = bump.bytes();
        proof {
            lemma_slots_apart::<T>(self.start as int, self.len as int, self.cap as int);
            assert(self.len * size == self.len * item_size::<T>());
        }
        let place: usize = self.start + self.len * size;
        bump.put(place, &value);
        proof {
            lemma_items_frame::<T>(before, bump.bytes(), self.start as int, self.len as nat);
        }
        self.len = self.len + 1;
        assert(self.items_in(bump.bytes()) =~= first.push(value));
    }

    /// Moves the items to a fresh run of slots, twice as long as the old one, or four
    /// slots long if there was none. The old slots are left behind.
    pub fn grow(&mut self, bump: &mut ThreadBump<'_>)
        requires
            old(self).valid_in(*old(bump)),
            old(bump).room_for_items::<T>(grown(old(self).cap())),
        ensures
            final(self).valid_in(*final(bump)),
            final(self).items_in(final(bump).bytes()) == old(self).items_in(old(bump).bytes()),
            final(self).len() == old(self).len(),
            final(self).cap() == grown(old(self).cap()),
            old(self).cap() > 0 ==> final(self).cap() == 2 * old(self).cap(),
            old(self).cap() == 0 ==> final(self).cap() == 4,
            final(self).start() == old(bump).next_word(),
            old(bump).used() <= final(self).start(),
            final(bump).wf(),
            final(bump).used() == final(self).end(),
            final(bump).home() == old(bump).home(),
            final(final(bump).memory)@ == final(old(bump).memory)@,
            same_outside(
                old(bump).bytes(),
                final(bump).bytes(),
                final(self).start() as int,
                slot::<T>(final(self).start() as int, old(self).len() as int),
            ),
    {
        let ghost before = bump.bytes();
        let total: usize = bump.capacity();
        let size: usize = item_bytes::<T>();
        proof {
            let wanted = grown(self.cap);
            assert(wanted <= wanted * size) by (nonlinear_arith)
                requires
                    0 <= wanted,
                    1 <= size,
            ;
            assert(self.len * size <= self.cap * size) by (nonlinear_arith)
                requires
                    self.len <= self.cap,
                    1 <= size,
            ;
        }
        let new_cap: usize = if self.cap == 0 {
            4
        } else {
            self.cap * 2
        };
        let new_start: usize = bump.alloc_uninit_slice::<T>(new_cap).unwrap();
        proof {
            assert(self.len * size <= new_cap * size) by (nonlinear_arith)
                requires
                    self.len <= new_cap,
                    1 <= size,
            ;
        }
        if self.len > 0 {
            bump.copy(self.start, new_start, self.len * size);
        }
        proof {
            let taken = self.len * size;
            assert(self.len == 0 ==> taken == 0) by (nonlinear_arith)
                requires
                    taken == self.len * size,
            ;
            assert forall|k: int| 0 <= k < taken implies bump.bytes()[new_start + k]
                == #[trigger] before[self.start + k] by {
                let moved = before.subrange(self.start as int, self.start + taken);
                assert(moved[k] == before[self.start + k]);
                assert(overwrite(before, new_start as int, moved)[new_start + k] == moved[k]);
            }
            lemma_items_moved::<T>(
                before,
                self.start as int,
                bump.bytes(),
                new_start as int,
                self.len as nat,
            );
        }
        self.start = new_start;
        self.cap = new_cap;
    }

    /// The item at `index`.
    pub fn get(&self, bump: &ThreadBump<'_>, index: usize) -> (item: T)
        requires
            self.valid_in(*bump),
            index < self.len(),
        ensures
            item == self.items_in(bump.bytes())[index as int],
    {
        let total: usize = bump.capacity();
        let size: usize = item_bytes::<T>();
        proof {
            lemma_slots_apart::<T>(self.start as int, index as int, self.cap as int);
        }
        let place: usize = self.start + index * size;
        T::load(bump.as_slice(), place)
    }
}

/// A vector depends only on the bytes of its slots, so it does not notice what is written
/// elsewhere in the arena.
pub proof fn lemma_vec_frame<T: ArenaItem>(vec: ArenaVec<T>, left: Seq<u8>, right: Seq<u8>)
    requires
        vec.len() <= vec.cap(),
        vec.end() <= left.len(),
        vec.end() <= right.len(),
        same_inside(left, right, vec.start() as int, vec.end()),
    ensures
        vec.items_in(left) == vec.items_in(right),
{
    if vec.len() < vec.cap() {
        lemma_slots_apart::<T>(vec.start() as int, vec.len() as int, vec.cap() as int);
    }
    lemma_items_frame::<T>(left, right, vec.start() as int, vec.len() as nat);
}

/// A vector that has slots is not valid once everything has been taken back, and so has
/// to be given up before.
pub proof fn lemma_reset_ends_validity<T: ArenaItem>(vec: ArenaVec<T>, bump: ThreadBump<'_>)
    requires
        vec.cap() > 0,
        bump.used() == 0,
    ensures
        !vec.valid_in(bump),
{
    T::lemma_word_count();
    lemma_word_size();
    let cap = vec.cap() as int;
    let words = T::word_count() as int;
    let word = word_size() as int;
    assert(0 < words * word) by (nonlinear_arith)
        requires
            1 <= words,
            1 <= word,
    ;
    assert(0 < cap * (words * word)) by (nonlinear_arith)
        requires
            0 < cap,
            0 < words * word,
    ;
}

impl<T: ArenaItem> ArenaItem for ArenaVec<T> {
    open spec fn word_count() -> nat {
        4
    }

    closed spec fn words(self) -> Seq<usize> {
        seq![self.start, self.len, self.cap, self.home]
    }

    closed spec fn from_words(words: Seq<usize>) -> Self {
        ArenaVec {
            start: words[0],
            len: words[1],
            cap: words[2],
            home: words[3],
            items: PhantomData,
        }
    }

    proof fn lemma_word_count() {
    }

    proof fn lemma_round_trip(self) {
    }

    fn count() -> (words: usize) {
        4
    }

    fn word(&self, index: usize) -> (word: usize) {
        if index == 0 {
            self.start
        } else if index == 1 {
            self.len
        } else if index == 2 {
            self.cap
        } else {
            self.home
        }
    }

    fn load(memory: &[u8], at: usize) -> (item: Self) {
        let size: usize = word_bytes();
        let total: usize = memory.len();
        ArenaVec {
            start: load_word(memory, at),
            len: load_word(memory, at + size),
            cap: load_word(memory, at + 2 * size),
            home: load_word(memory, at + 3 * size),
            items: PhantomData,
        }
    }
}

} // verus!
