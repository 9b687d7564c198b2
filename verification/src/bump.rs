//! A bump allocator over one thread's part of a shared arena.

use crate::align::{align_up, lemma_align_up_least_multiple, lemma_align_up_of_byte, lemma_align_up_range};
use crate::item::{item_at, item_bytes, item_size, store_item, ArenaItem};
use crate::memory::{copy_forward, overwrite, same_outside, write_bytes};
use crate::words::{lemma_word_size, word_bytes, word_size};
use vstd::arithmetic::power2::pow2;
use vstd::prelude::*;
use vstd::utf8::encode_utf8;

verus! {

/// Hands out the bytes of `memory` front to back and never takes one back before
/// [`reset`](ThreadBump::reset). Whatever is done with it, it stays on the same memory:
/// that is what the contracts say of `final(..)` of that field.
pub struct ThreadBump<'a> {
    /// This thread's part of the arena. What it holds when the bump is given up is what
    /// the arena holds from then on.
    pub memory: &'a mut [u8],
    /// How many bytes from the front have been handed out.
    pub offset: usize,
    /// Which part of the arena this is.
    pub home: usize,
}

/// Two runs of bytes that are handed out one after the other do not overlap, and neither
/// overlaps what was handed out before.
pub proof fn lemma_allocations_apart(
    used: usize,
    first_size: usize,
    first_align: usize,
    second_align: usize,
)
    requires
        1 <= first_align,
        1 <= second_align,
        used + first_align - 1 <= usize::MAX,
        align_up(used, first_align) + first_size + second_align - 1 <= usize::MAX,
    ensures
        ({
            let first = align_up(used, first_align);
            let second = align_up((first + first_size) as usize, second_align);
            used <= first && first + first_size <= second
        }),
{
    lemma_align_up_range(used, first_align);
    lemma_align_up_range((align_up(used, first_align) + first_size) as usize, second_align);
}

/// A run of bytes is still to be had if and only if some multiple of the alignment, not
/// below what was handed out, leaves enough of them.
pub proof fn lemma_room_exactly(bump: ThreadBump<'_>, size: int, align: usize, exponent: nat)
    requires
        align == pow2(exponent),
        bump.used() + align - 1 <= usize::MAX,
    ensures
        bump.room_for(size, align) <==> exists|start: int|
            {
                &&& bump.used() <= start
                &&& #[trigger] (start % align as int) == 0
                &&& start + size <= bump.bytes().len()
            },
{
    vstd::arithmetic::power2::lemma_pow2_pos(exponent);
    lemma_align_up_range(bump.used(), align);
    lemma_align_up_least_multiple(bump.used(), align, exponent);
    let first = align_up(bump.used(), align) as int;
    assert(first % align as int == 0);
}

/// A number of items is still to be had if and only if it is none at all, or their images
/// fit behind what was handed out, from a whole word on.
pub proof fn lemma_room_for_items_exactly<T: ArenaItem>(bump: ThreadBump<'_>, count: int)
    requires
        bump.used() + word_size() - 1 <= usize::MAX,
    ensures
        bump.room_for_items::<T>(count) <==> count == 0 || exists|start: int|
            {
                &&& bump.used() <= start
                &&& #[trigger] (start % word_size() as int) == 0
                &&& start + count * (T::word_count() * word_size()) <= bump.bytes().len()
            },
{
    lemma_word_size();
    vstd::arithmetic::power2::lemma2_to64();
    lemma_room_exactly(
        bump,
        count * item_size::<T>(),
        word_size() as usize,
        if word_size() == 4 {
            2
        } else {
            3
        },
    );
}

impl<'a> ThreadBump<'a> {
    /// What the memory holds.
    pub open spec fn bytes(self) -> Seq<u8> {
        self.memory@
    }

    /// How many bytes from the front have been handed out, padding included.
    pub open spec fn used(self) -> usize {
        self.offset
    }

    /// Which part of the shared arena this is.
    pub open spec fn home(self) -> usize {
        self.home
    }

    /// No more has been handed out than there is.
    pub open spec fn wf(self) -> bool {
        self.used() <= self.bytes().len()
    }

    /// The next `size` bytes at a multiple of `align` are still to be had.
    pub open spec fn room_for(self, size: int, align: usize) -> bool {
        &&& 1 <= align
        &&& self.used() + align - 1 <= usize::MAX
        &&& align_up(self.used(), align) + size <= self.bytes().len()
    }

    /// The next `count` items are still to be had.
    pub open spec fn room_for_items<T: ArenaItem>(self, count: int) -> bool {
        count == 0 || self.room_for(count * item_size::<T>(), word_size() as usize)
    }

    /// Where the next run of words would begin.
    pub open spec fn next_word(self) -> usize {
        align_up(self.used(), word_size() as usize)
    }

    /// An empty bump over `memory`, for part `home` of an arena.
    pub(crate) fn over(memory: &'a mut [u8], home: usize) -> (bump: ThreadBump<'a>)
        ensures
            bump.wf(),
            bump.bytes() == old(memory)@,
            bump.used() == 0,
            bump.home() == home,
            final(bump.memory)@ == final(memory)@,
    {
        ThreadBump { memory, offset: 0, home }
    }

    /// Hands out `size` bytes at the next multiple of `align` and says where they begin.
    pub fn alloc_raw(&mut self, size: usize, align: usize) -> (start: usize)
        requires
            old(self).wf(),
            old(self).room_for(size as int, align),
        ensures
            final(self).wf(),
            start == align_up(old(self).used(), align),
            final(self).used() == start + size,
            final(self).bytes() == old(self).bytes(),
            final(self).home() == old(self).home(),
            final(final(self).memory)@ == final(old(self).memory)@,
            old(self).used() <= start,
    {
        let current: usize = self.offset;
        let total: usize = self.memory.len();
        proof {
            lemma_align_up_range(current, align);
        }
        let start: usize = (current + (align - 1)) & !(align - 1);
        self.offset = start + size;
        start
    }

    /// Whether `size` bytes can be handed out at the next multiple of `align`.
    pub fn has_room(&self, size: usize, align: usize) -> (fits: bool)
        ensures
            fits == self.room_for(size as int, align),
    {
        let total: usize = self.memory.len();
        if align == 0 {
            return false;
        }
        match self.offset.checked_add(align - 1) {
            Some(raised) => {
                let start: usize = raised & !(align - 1);
                start <= total && size <= total - start
            },
            None => false,
        }
    }

    /// Copies the bytes of `text` into the arena and says where they begin.
    pub fn alloc_str(&mut self, text: &str) -> (start: usize)
        requires
            old(self).wf(),
            old(self).used() + encode_utf8(text@).len() <= old(self).bytes().len(),
        ensures
            final(self).wf(),
            start == old(self).used(),
            final(self).used() == start + encode_utf8(text@).len(),
            final(self).bytes() == overwrite(old(self).bytes(), start as int, encode_utf8(text@)),
            final(self).home() == old(self).home(),
            final(final(self).memory)@ == final(old(self).memory)@,
    {
        let data: &[u8] = text.as_bytes();
        proof {
            lemma_align_up_of_byte(self.used());
        }
        let start: usize = self.alloc_raw(data.len(), 1);
        write_bytes(self.memory, start, data);
        start
    }

    /// Hands out room for `count` items and says where it begins; for no items at all
    /// nothing is handed out.
    pub fn alloc_uninit_slice<T: ArenaItem>(&mut self, count: usize) -> (start: Option<usize>)
        requires
            old(self).wf(),
            old(self).room_for_items::<T>(count as int),
        ensures
            final(self).wf(),
            count == 0 ==> start is None && final(self).used() == old(self).used(),
            count > 0 ==> start == Some(old(self).next_word()) && final(self).used()
                == old(self).next_word() + count * item_size::<T>(),
            count > 0 ==> old(self).used() <= old(self).next_word()
                && old(self).next_word() as int % word_size() as int == 0,
            final(self).bytes() == old(self).bytes(),
            final(self).home() == old(self).home(),
            final(final(self).memory)@ == final(old(self).memory)@,
    {
        if count == 0 {
            return None;
        }
        let total: usize = self.memory.len();
        let size: usize = item_bytes::<T>();
        let align: usize = word_bytes();
        proof {
            lemma_word_size();
            vstd::arithmetic::power2::lemma2_to64();
            lemma_align_up_least_multiple(
                self.used(),
                align,
                if align == 4 {
                    2
                } else {
                    3
                },
            );
        }
        Some(self.alloc_raw(count * size, align))
    }

    /// Takes everything back at once; the bytes stay as they are.
    pub fn reset(&mut self)
        ensures
            final(self).wf(),
            final(self).used() == 0,
            final(self).bytes() == old(self).bytes(),
            final(self).home() == old(self).home(),
            final(final(self).memory)@ == final(old(self).memory)@,
    {
        self.offset = 0;
    }

    /// How many bytes have been handed out, padding included.
    pub fn allocated_bytes(&self) -> (used: usize)
        ensures
            used == self.used(),
    {
        self.offset
    }

    /// How many bytes there are to hand out in all.
    pub fn capacity(&self) -> (total: usize)
        ensures
            total == self.bytes().len(),
    {
        self.memory.len()
    }

    /// The bytes of the memory.
    pub fn as_slice(&self) -> (bytes: &[u8])
        ensures
            bytes@ == self.bytes(),
    {
        self.memory
    }

    /// Writes `item` at offset `at`.
    pub(crate) fn put<T: ArenaItem>(&mut self, at: usize, item: &T)
        requires
            at + item_size::<T>() <= old(self).bytes().len(),
        ensures
            item_at::<T>(final(self).bytes(), at as int) == *item,
            same_outside(old(self).bytes(), final(self).bytes(), at as int, at + item_size::<T>()),
            final(self).used() == old(self).used(),
            final(self).home() == old(self).home(),
            final(final(self).memory)@ == final(old(self).memory)@,
    {
        store_item(self.memory, at, item);
    }

    /// Copies `count` bytes from offset `from` to offset `to`, which lies behind them.
    pub(crate) fn copy(&mut self, from: usize, to: usize, count: usize)
        requires
            from + count <= to,
            to + count <= old(self).bytes().len(),
        ensures
            final(self).bytes() == overwrite(
                old(self).bytes(),
                to as int,
                old(self).bytes().subrange(from as int, from + count),
            ),
            final(self).used() == old(self).used(),
            final(self).home() == old(self).home(),
            final(final(self).memory)@ == final(old(self).memory)@,
    {
        copy_forward(self.memory, from, to, count);
    }
}

} // verus!
