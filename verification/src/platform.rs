//! What comes of asking the system for memory.

use vstd::prelude::*;

verus! {

/// A run of memory that the system has given.
#[derive(Clone, Copy, Debug, PartialEq, Eq, Structural)]
pub struct RawAllocation {
    /// Address of the first byte.
    pub addr: usize,
    /// Number of bytes.
    pub size: usize,
    /// Whether it is made of huge pages.
    pub is_huge: bool,
}

/// Reads the answer `addr` to a request for `size` bytes of huge pages: either `failed`, or
/// the address of the first byte.
pub fn try_alloc_huge(addr: usize, failed: usize, size: usize) -> (alloc: Option<RawAllocation>)
    ensures
        alloc == if addr == failed {
            None
        } else {
            Some(RawAllocation { addr, size, is_huge: true })
        },
{
    if addr == failed {
        None
    } else {
        Some(RawAllocation { addr, size, is_huge: true })
    }
}

/// What to do once huge pages were asked for.
#[derive(Clone, Copy, Debug, PartialEq, Eq, Structural)]
pub enum AllocStep {
    /// Work with this memory.
    Use(RawAllocation),
    /// Ask for ordinary pages.
    AskOrdinary,
}

/// Huge pages are worked with when there are any. Only when there are none, ordinary pages
/// are asked for.
pub fn after_huge(huge: Option<RawAllocation>) -> (step: AllocStep)
    ensures
        step == match huge {
            Some(alloc) => AllocStep::Use(alloc),
            None => AllocStep::AskOrdinary,
        },
{
    match huge {
        Some(alloc) => AllocStep::Use(alloc),
        None => AllocStep::AskOrdinary,
    }
}

/// Reads the answer `addr` to a request for `size` bytes of ordinary pages, which must not
/// be `failed`.
pub fn alloc_normal(addr: usize, failed: usize, size: usize) -> (alloc: RawAllocation)
    requires
        addr != failed,
    ensures
        alloc == (RawAllocation { addr, size, is_huge: false }),
{
    RawAllocation { addr, size, is_huge: false }
}

/// How a system says that it has locked memory.
#[derive(Clone, Copy, Debug, PartialEq, Eq, Structural)]
pub enum LockAnswer {
    /// By a zero.
    Zero,
    /// By anything but a zero.
    NonZero,
}

/// Reads the answer to a request for locking memory: whether it is locked now.
pub fn lock_memory(answer: i32, success: LockAnswer) -> (locked: bool)
    ensures
        locked == match success {
            LockAnswer::Zero => answer == 0,
            LockAnswer::NonZero => answer != 0,
        },
{
    match success {
        LockAnswer::Zero => answer == 0,
        LockAnswer::NonZero => answer != 0,
    }
}

/// Memory is in use after a request for huge pages if and only if that was answered with an
/// address, and then it is all of the huge memory asked for.
pub proof fn lemma_huge_first(huge: Option<RawAllocation>, addr: usize, failed: usize, size: usize)
    requires
        call_ensures(try_alloc_huge, (addr, failed, size), huge),
    ensures
        forall|step: AllocStep| #[trigger]
            call_ensures(after_huge, (huge,), step) ==> step == if addr == failed {
                AllocStep::AskOrdinary
            } else {
                AllocStep::Use(RawAllocation { addr, size, is_huge: true })
            },
{
}

} // verus!
