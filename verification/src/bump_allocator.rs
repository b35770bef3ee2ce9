//! A bump (monotonic) allocator: allocation advances a cursor through
//! one region and nothing is ever reclaimed.  Used for a bounded number
//! of early, long-lived allocations, trading reuse for O(1) allocation
//! and zero bookkeeping.

use vstd::prelude::*;
use crate::align::{is_power_of_two, lemma_pad_for, lemma_power_of_two_pos, pad_for, round_up};

verus! {

/// A bump allocator over one contiguous heap region.  The cursor `next`
/// only ever advances; this policy never reclaims individual
/// allocations.
pub struct BumpAllocator {
    /// First address of the heap region.
    pub heap_start: usize,
    /// One-past-the-end address of the heap region.
    pub heap_end: usize,
    /// First address not yet handed out.
    pub next: usize,
}

impl BumpAllocator {
    /// The cursor stays inside the heap region.
    pub open spec fn wf(&self) -> bool {
        self.heap_start <= self.next <= self.heap_end
    }

    /// Creates a new uninitialized bump allocator: an empty region, so
    /// every allocation fails until `init` is called.
    pub fn new() -> (a: BumpAllocator)
        ensures
            a.heap_start == 0,
            a.heap_end == 0,
            a.next == 0,
            a.wf(),
    {
        BumpAllocator { heap_start: 0, heap_end: 0, next: 0 }
    }

    /// Initializes the bump allocator with the given heap bounds and
    /// rewinds the cursor to the region's start.
    ///
    /// The heap bounds must be valid (a region that does not wrap the
    /// address space) and the caller must initialize the allocator only
    /// once; neither is checked at run time.
    pub fn init(&mut self, heap_start: usize, size: usize)
        requires
            heap_start + size <= usize::MAX,
        ensures
            final(self).heap_start == heap_start,
            final(self).heap_end == heap_start + size,
            final(self).next == heap_start,
            final(self).wf(),
    {
        self.heap_start = heap_start;
        self.heap_end = heap_start + size;
        self.next = heap_start;
    }

    /// Aligns the given address upward to the specified alignment.
    pub fn align_up(addr: usize, align: usize) -> (r: usize)
        requires
            is_power_of_two(align as int),
            addr + align <= usize::MAX,
        ensures
            r == round_up(addr as int, align as int),
            r as int % align as int == 0,
            addr <= r < addr + align,
    {
        proof {
            lemma_pad_for(addr as int, align as int);
        }
        let remainder = addr % align;
        if remainder == 0 {
            proof {
                vstd::arithmetic::div_mod::lemma_mod_self_0(align as int);
            }
            addr
        } else {
            proof {
                vstd::arithmetic::div_mod::lemma_small_mod(
                    (align - remainder) as nat,
                    align as nat,
                );
                vstd::arithmetic::div_mod::lemma_mod_decreases(addr as nat, align as nat);
            }
            addr - remainder + align
        }
    }

    /// Allocates `size` bytes at alignment `align` by advancing the
    /// cursor, and returns the aligned address, or returns nothing when
    /// the rounded-up request does not fit in what is left of the heap
    /// (the out-of-memory case).  The cursor never moves backwards.
    pub fn allocate(&mut self, size: usize, align: usize) -> (r: Option<usize>)
        requires
            old(self).wf(),
            is_power_of_two(align as int),
            old(self).heap_end + align <= usize::MAX,
        ensures
            final(self).wf(),
            final(self).heap_start == old(self).heap_start,
            final(self).heap_end == old(self).heap_end,
            final(self).next >= old(self).next,
            ({
                let aligned = round_up(old(self).next as int, align as int);
                if aligned + size <= old(self).heap_end {
                    &&& r == Some(aligned as usize)
                    &&& final(self).next == aligned + size
                } else {
                    &&& r is None
                    &&& final(self).next == old(self).next
                }
            }),
            (r matches Some(p) ==> p as int % align as int == 0),
            (r matches Some(p) ==> old(self).next <= p && p + size <= old(self).heap_end),
    {
        proof {
            lemma_power_of_two_pos(align as int);
            lemma_pad_for(self.next as int, align as int);
        }
        let alloc_start = Self::align_up(self.next, align);
        if size > usize::MAX - alloc_start {
            // The request overflows the address space, so it cannot end
            // inside the heap either.
            return None;
        }
        let alloc_end = alloc_start + size;
        if alloc_end <= self.heap_end {
            self.next = alloc_end;
            Some(alloc_start)
        } else {
            None
        }
    }

    /// Deallocates nothing: this policy never reclaims memory, by
    /// design.
    pub fn dealloc(&self, _ptr: usize, _size: usize, _align: usize) {
    }
}

} // verus!
