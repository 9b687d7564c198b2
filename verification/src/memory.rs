//! Plain byte buffers: what a write leaves behind, and what it leaves alone.

use vstd::prelude::*;

verus! {

/// `mem` with `data` written over it from offset `at` on.
pub open spec fn overwrite(mem: Seq<u8>, at: int, data: Seq<u8>) -> Seq<u8> {
    Seq::new(
        mem.len(),
        |k: int|
            if at <= k < at + data.len() {
                data[k - at]
            } else {
                mem[k]
            },
    )
}

/// `before` and `after` are equally long and agree outside `[lo, hi)`.
pub open spec fn same_outside(before: Seq<u8>, after: Seq<u8>, lo: int, hi: int) -> bool {
    &&& after.len() == before.len()
    &&& forall|k: int| 0 <= k < before.len() && !(lo <= k < hi) ==> after[k] == before[k]
}

/// `left` and `right` agree on `[lo, hi)`.
pub open spec fn same_inside(left: Seq<u8>, right: Seq<u8>, lo: int, hi: int) -> bool {
    forall|k: int| lo <= k < hi ==> left[k] == right[k]
}

/// Writes `data` into `memory` from offset `at` on.
pub fn write_bytes(memory: &mut [u8], at: usize, data: &[u8])
    requires
        at + data@.len() <= old(memory)@.len(),
    ensures
        final(memory)@ == overwrite(old(memory)@, at as int, data@),
{
    let count: usize = data.len();
    let total: usize = memory.len();
    let mut done: usize = 0;
    while done < count
        invariant
            done <= count,
            count == data@.len(),
            total == memory@.len(),
            at + count <= total,
            memory@ == overwrite(old(memory)@, at as int, data@.take(done as int)),
        decreases count - done,
    {
        memory[at + done] = data[done];
        done = done + 1;
        assert(memory@ =~= overwrite(old(memory)@, at as int, data@.take(done as int)));
    }
    assert(data@.take(count as int) =~= data@);
}

/// Copies `count` bytes from offset `from` to offset `to`, which lies behind them.
pub fn copy_forward(memory: &mut [u8], from: usize, to: usize, count: usize)
    requires
        from + count <= to,
        to + count <= old(memory)@.len(),
    ensures
        final(memory)@ == overwrite(
            old(memory)@,
            to as int,
            old(memory)@.subrange(from as int, from + count),
        ),
{
    let total: usize = memory.len();
    let ghost source = memory@.subrange(from as int, from + count);
    let mut done: usize = 0;
    while done < count
        invariant
            done <= count,
            from + count <= to,
            to + count <= total,
            total == memory@.len(),
            total == old(memory)@.len(),
            source == old(memory)@.subrange(from as int, from + count),
            memory@ == overwrite(old(memory)@, to as int, source.take(done as int)),
        decreases count - done,
    {
        assert(memory@[from + done] == source[done as int]);
        memory[to + done] = memory[from + done];
        done = done + 1;
        assert(memory@ =~= overwrite(old(memory)@, to as int, source.take(done as int)));
    }
    assert(source.take(count as int) =~= source);
}

} // verus!
