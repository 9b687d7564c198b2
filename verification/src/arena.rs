//! One large buffer, shared out among threads.

use crate::bump::ThreadBump;
use vstd::prelude::*;

verus! {

/// Distance between the bytes that are touched to bring every page in.
pub const PAGE: usize = 4096;

/// A buffer that is to be shared out.
pub struct SharedArena<'m> {
    /// The buffer. What it holds when the arena is given up stays in it.
    pub memory: &'m mut [u8],
}

/// `mem` after the first byte of every page has been set to zero.
pub open spec fn touched(mem: Seq<u8>) -> Seq<u8> {
    Seq::new(
        mem.len(),
        |k: int|
            if k % PAGE as int == 0 {
                0u8
            } else {
                mem[k]
            },
    )
}

/// Where part `index` begins when `total` bytes are shared out in `parts`.
pub open spec fn part_start(total: int, parts: int, index: int) -> int {
    index * (total / parts)
}

/// Where part `index` ends; the last part takes what the division leaves over.
pub open spec fn part_end(total: int, parts: int, index: int) -> int {
    if index == parts - 1 {
        total
    } else {
        part_start(total, parts, index + 1)
    }
}

/// The parts follow one another without gap or overlap, from the first byte to the last.
pub proof fn lemma_parts_tile(total: int, parts: int, index: int)
    requires
        0 <= total,
        0 <= index < parts,
    ensures
        part_start(total, parts, 0) == 0,
        0 <= part_start(total, parts, index) <= part_end(total, parts, index) <= total,
        index + 1 < parts ==> part_end(total, parts, index) == part_start(total, parts, index + 1),
        part_end(total, parts, parts - 1) == total,
{
    let chunk = total / parts;
    assert(0 <= chunk && chunk * parts <= total) by (nonlinear_arith)
        requires
            0 <= total,
            0 < parts,
            chunk == total / parts,
    ;
    assert(0 <= index * chunk && index * chunk <= (index + 1) * chunk && (index + 1) * chunk
        <= chunk * parts) by (nonlinear_arith)
        requires
            0 <= chunk,
            0 <= index < parts,
    ;
}

/// All parts but the last are equally long, as long as a fair share can be; the last is at
/// least as long, and takes fewer bytes more than there are parts.
pub proof fn lemma_parts_fair(total: int, parts: int, index: int)
    requires
        0 <= total,
        0 <= index < parts,
    ensures
        ({
            let len = part_end(total, parts, index) - part_start(total, parts, index);
            &&& index < parts - 1 ==> len * parts <= total < (len + 1) * parts
            &&& index == parts - 1 ==> {
                let share = total / parts;
                share <= len < share + parts
            }
        }),
{
    let chunk = total / parts;
    vstd::arithmetic::div_mod::lemma_fundamental_div_mod(total, parts);
    assert(chunk * parts <= total < (chunk + 1) * parts) by (nonlinear_arith)
        requires
            total == parts * chunk + total % parts,
            0 <= total % parts < parts,
    ;
    assert((index + 1) * chunk - index * chunk == chunk) by (nonlinear_arith);
    assert((parts - 1) * chunk == chunk * parts - chunk) by (nonlinear_arith);
    assert((chunk + 1) * parts == chunk * parts + parts) by (nonlinear_arith);
}

/// Touching sets every byte at a multiple of 4096 to zero and leaves all others alone.
pub proof fn lemma_touched_exactly(mem: Seq<u8>, at: int)
    requires
        0 <= at < mem.len(),
    ensures
        touched(mem).len() == mem.len(),
        at % 4096 == 0 ==> touched(mem)[at] == 0,
        at % 4096 != 0 ==> touched(mem)[at] == mem[at],
{
}

/// Each byte belongs to exactly one part.
pub proof fn lemma_parts_partition(total: int, parts: int, at: int)
    requires
        0 <= at < total,
        0 < parts,
    ensures
        exists|index: int|
            0 <= index < parts && #[trigger] part_start(total, parts, index) <= at < part_end(
                total,
                parts,
                index,
            ),
        forall|one: int, two: int|
            0 <= one < two < parts ==> #[trigger] part_end(total, parts, one)
                <= #[trigger] part_start(total, parts, two),
{
    let chunk = total / parts;
    assert(0 <= chunk && chunk * parts <= total) by (nonlinear_arith)
        requires
            0 <= total,
            0 < parts,
            chunk == total / parts,
    ;
    let last = parts - 1;
    if part_start(total, parts, last) <= at {
        assert(part_start(total, parts, last) <= at < part_end(total, parts, last));
    } else {
        assert(chunk > 0) by (nonlinear_arith)
            requires
                0 <= at < last * chunk,
                0 <= chunk,
        ;
        let index = at / chunk;
        vstd::arithmetic::div_mod::lemma_fundamental_div_mod(at, chunk);
        assert(index * chunk <= at && at < (index + 1) * chunk) by (nonlinear_arith)
            requires
                at == chunk * index + at % chunk,
                0 <= at % chunk < chunk,
        ;
        assert(0 <= index < last) by (nonlinear_arith)
            requires
                index * chunk <= at < (index + 1) * chunk,
                0 <= at < last * chunk,
                0 < chunk,
        ;
        assert(part_start(total, parts, index) <= at < part_end(total, parts, index));
    }
    assert forall|one: int, two: int| 0 <= one < two < parts implies #[trigger] part_end(
        total,
        parts,
        one,
    ) <= #[trigger] part_start(total, parts, two) by {
        assert((one + 1) * chunk <= two * chunk) by (nonlinear_arith)
            requires
                one + 1 <= two,
                0 <= chunk,
        ;
    }
}

/// `parts` one after the other.
pub open spec fn glued(parts: Seq<Seq<u8>>) -> Seq<u8>
    decreases parts.len(),
{
    if parts.len() == 0 {
        Seq::empty()
    } else {
        glued(parts.drop_last()) + parts.last()
    }
}

impl<'m> SharedArena<'m> {
    /// What the buffer holds.
    pub open spec fn bytes(self) -> Seq<u8> {
        self.memory@
    }

    /// Takes `memory` over and touches every page of it.
    pub fn new(memory: &'m mut [u8]) -> (arena: SharedArena<'m>)
        ensures
            arena.bytes() == touched(old(memory)@),
            final(arena.memory)@ == final(memory)@,
    {
        let total: usize = memory.len();
        let mut at: usize = 0;
        let mut left: usize = total;
        while left > 0
            invariant
                total == old(memory)@.len(),
                memory@.len() == total,
                left <= total,
                left > 0 ==> at == total - left,
                left > 0 ==> at as int % PAGE as int == 0,
                forall|k: int|
                    0 <= k < total ==> memory@[k] == if k < total - left && k % PAGE as int == 0 {
                        0u8
                    } else {
                        old(memory)@[k]
                    },
            decreases left,
        {
            memory[at] = 0;
            if left > PAGE {
                at = at + PAGE;
                left = left - PAGE;
            } else {
                left = 0;
            }
        }
        assert(memory@ =~= touched(old(memory)@));
        SharedArena { memory }
    }

    /// The whole buffer.
    pub fn as_slice(&self) -> (bytes: &[u8])
        ensures
            bytes@ == self.bytes(),
    {
        self.memory
    }

    /// Shares the buffer out in `num_threads` parts of equal size, with what is left over
    /// at the end of the last. Once the parts are given up, the buffer holds what they hold,
    /// one after the other.
    pub fn split<'a>(&'a mut self, num_threads: usize) -> (bumps: Vec<ThreadBump<'a>>)
        requires
            num_threads > 0,
        ensures
            bumps@.len() == num_threads,
            forall|i: int|
                0 <= i < num_threads ==> {
                    let bump = #[trigger] bumps@[i];
                    &&& bump.wf()
                    &&& bump.used() == 0
                    &&& bump.home() == i
                    &&& bump.bytes() == old(self).bytes().subrange(
                        part_start(old(self).bytes().len() as int, num_threads as int, i),
                        part_end(old(self).bytes().len() as int, num_threads as int, i),
                    )
                },
            exists|parts: Seq<Seq<u8>>|
                {
                    &&& parts.len() == num_threads
                    &&& final(self).bytes() == #[trigger] glued(parts)
                    &&& forall|i: int|
                        0 <= i < num_threads ==> #[trigger] parts[i] == final(bumps@[i].memory)@
                },
            final(final(self).memory)@ == final(old(self).memory)@,
    {
        let ghost whole = self.memory@;
        let total: usize = self.memory.len();
        let chunk: usize = total / num_threads;
        let ghost parts = num_threads as int;
        let mut bumps: Vec<ThreadBump<'a>> = Vec::with_capacity(num_threads);
        let mut rest: &'a mut [u8] = self.memory;
        let ghost outcome = final(rest)@;
        let mut next: usize = 0;
        proof {
            assert(rest@ =~= whole.subrange(0, total as int));
            assert(outcome =~= glued(Seq::<Seq<u8>>::empty()) + final(rest)@);
        }
        while next < num_threads - 1
            invariant
                num_threads > 0,
                next <= num_threads - 1,
                parts == num_threads,
                total == whole.len(),
                chunk == total as int / parts,
                rest@ == whole.subrange(part_start(total as int, parts, next as int), total as int),
                bumps@.len() == next,
                forall|i: int|
                    0 <= i < next ==> {
                        let bump = #[trigger] bumps@[i];
                        &&& bump.wf()
                        &&& bump.used() == 0
                        &&& bump.home() == i
                        &&& bump.bytes() == whole.subrange(
                            part_start(total as int, parts, i),
                            part_end(total as int, parts, i),
                        )
                    },
                exists|ends: Seq<Seq<u8>>|
                    {
                        &&& ends.len() == next
                        &&& outcome == #[trigger] glued(ends) + final(rest)@
                        &&& forall|i: int|
                            0 <= i < next ==> #[trigger] ends[i] == final(bumps@[i].memory)@
                    },
            decreases num_threads - next,
        {
            let ghost ends = choose|ends: Seq<Seq<u8>>|
                {
                    &&& ends.len() == next
                    &&& outcome == #[trigger] glued(ends) + final(rest)@
                    &&& forall|i: int|
                        0 <= i < next ==> #[trigger] ends[i] == final(bumps@[i].memory)@
                };
            proof {
                lemma_parts_tile(total as int, parts, next as int);
                lemma_parts_tile(total as int, parts, next + 1);
                assert((next + 1) * chunk == next * chunk + chunk) by (nonlinear_arith);
            }
            let (head, tail) = rest.split_at_mut(chunk);
            proof {
                assert(head@ =~= whole.subrange(
                    part_start(total as int, parts, next as int),
                    part_end(total as int, parts, next as int),
                ));
                assert(tail@ =~= whole.subrange(
                    part_start(total as int, parts, next + 1),
                    total as int,
                ));
                let more = ends.push(final(head)@);
                assert(more.drop_last() =~= ends);
                assert(outcome =~= glued(more) + final(tail)@);
            }
            bumps.push(ThreadBump::over(head, next));
            rest = tail;
            next = next + 1;
        }
        proof {
            let ends = choose|ends: Seq<Seq<u8>>|
                {
                    &&& ends.len() == next
                    &&& outcome == #[trigger] glued(ends) + final(rest)@
                    &&& forall|i: int|
                        0 <= i < next ==> #[trigger] ends[i] == final(bumps@[i].memory)@
                };
            let more = ends.push(final(rest)@);
            assert(more.drop_last() =~= ends);
            assert(outcome =~= glued(more));
        }
        bumps.push(ThreadBump::over(rest, next));
        bumps
    }
}

} // verus!
